//! A tokenizer for a small brace-delimited language of functions and numbers.

use crate::char_cursor::{
    byte_offset,
    class_run, cursor_items, cursor_new, cursor_next, cursor_next_if, cursor_peek,
    cursor_take_while_last, indexed_chars,
};
use itertools::PeekNth;
use std::str::CharIndices;
use vstd::prelude::*;
use vstd::string::is_ascii;
use vstd::string::StrSliceExecFns;
use vstd::string::StringExecFns;
use vstd::utf8::{encode_scalar, encode_utf8};
use vstd::utf8::is_ascii_chars;

verus! {

/// The character classes that the tokenizer scans by.
#[derive(Clone, Copy, Debug, PartialEq, Eq)]
pub enum CharClass {
    Whitespace,
    Alphabetic,
    Alphanumeric,
    Digit,
}

pub open spec fn is_ascii_digit(c: char) -> bool {
    '0' <= c <= '9'
}

pub open spec fn is_ascii_alphabetic(c: char) -> bool {
    ('a' <= c <= 'z') || ('A' <= c <= 'Z')
}

/// ASCII whitespace as `char::is_ascii_whitespace` defines it: space, tab,
/// line feed, form feed and carriage return.
pub open spec fn is_ascii_whitespace(c: char) -> bool {
    c == ' ' || c == '\t' || c == '\n' || c == '\x0C' || c == '\r'
}

impl CharClass {
    pub open spec fn spec_accepts(self, c: char) -> bool {
        match self {
            CharClass::Whitespace => is_ascii_whitespace(c),
            CharClass::Alphabetic => is_ascii_alphabetic(c),
            CharClass::Alphanumeric => is_ascii_alphabetic(c) || is_ascii_digit(c),
            CharClass::Digit => is_ascii_digit(c),
        }
    }

    pub fn accepts(self, c: char) -> (b: bool)
        ensures
            b == self.spec_accepts(c),
    {
        match self {
            CharClass::Whitespace => c == ' ' || c == '\t' || c == '\n' || c == '\x0C' || c == '\r',
            CharClass::Alphabetic => ('a' <= c && c <= 'z') || ('A' <= c && c <= 'Z'),
            CharClass::Alphanumeric => ('a' <= c && c <= 'z') || ('A' <= c && c <= 'Z') || ('0' <= c && c <= '9'),
            CharClass::Digit => '0' <= c && c <= '9',
        }
    }
}

/// A byte range `start..end` of the source text.
#[derive(Clone, Copy, Debug)]
pub struct Span {
    start: usize,
    end: usize,
}

impl View for Span {
    type V = (int, int);

    closed spec fn view(&self) -> (int, int) {
        (self.start as int, self.end as int)
    }
}

impl Span {
    /// The span `start..end`.
    pub fn end(start: usize, end: usize) -> (span: Self)
        ensures
            span@ == (start as int, end as int),
    {
        Self { start, end }
    }

    /// The span from `start` up to and including `last`.
    pub fn last(start: usize, last: usize) -> (span: Self)
        requires
            last < usize::MAX,
        ensures
            span@ == (start as int, last + 1),
    {
        Self::end(start, last + 1)
    }

    /// The span of the single byte at `start`.
    pub fn one(start: usize) -> (span: Self)
        requires
            start < usize::MAX,
        ensures
            span@ == (start as int, start + 1),
    {
        Self::last(start, start)
    }

    pub fn start(&self) -> (n: usize)
        ensures
            n == self@.0,
    {
        self.start
    }

    pub fn stop(&self) -> (n: usize)
        ensures
            n == self@.1,
    {
        self.end
    }
}

/// The decimal digits of `n`, most significant first, without leading zeros.
pub open spec fn decimal_text(n: nat) -> Seq<char>
    decreases n,
{
    let digit = ((48 + n % 10) as u32) as char;
    if n < 10 {
        seq![digit]
    } else {
        decimal_text(n / 10).push(digit)
    }
}

/// The one decimal digit `d` as text.
fn digit_text(d: u64) -> (text: &'static str)
    requires
        d < 10,
    ensures
        text@ == seq![((48 + d) as u32) as char],
{
    proof {
        reveal_strlit("0");
        reveal_strlit("1");
        reveal_strlit("2");
        reveal_strlit("3");
        reveal_strlit("4");
        reveal_strlit("5");
        reveal_strlit("6");
        reveal_strlit("7");
        reveal_strlit("8");
        reveal_strlit("9");
    }
    match d {
        0 => "0",
        1 => "1",
        2 => "2",
        3 => "3",
        4 => "4",
        5 => "5",
        6 => "6",
        7 => "7",
        8 => "8",
        _ => "9",
    }
}

/// The decimal digits of `n` (see [`decimal_text`]), as `Display` writes
/// a number.
pub fn decimal_string(n: u64) -> (text: String)
    ensures
        text@ == decimal_text(n as nat),
    decreases n,
{
    let digit = digit_text(n % 10);
    if n < 10 {
        digit.to_owned()
    } else {
        let mut text = decimal_string(n / 10);
        let ghost before = text@;
        text.append(digit);
        assert(text@ =~= before.push(((48 + n % 10) as u32) as char));
        text
    }
}

/// How a span reads: `start..end`.
pub open spec fn span_text(start: int, end: int) -> Seq<char> {
    decimal_text(start as nat) + ".."@ + decimal_text(end as nat)
}

impl Span {
    /// This span as it reads (see [`span_text`]).
    pub fn text(&self) -> (text: String)
        ensures
            text@ == span_text(self@.0, self@.1),
    {
        let mut text = decimal_string(self.start as u64);
        text.append("..");
        let end = decimal_string(self.end as u64);
        text.append(end.as_str());
        text
    }
}

/// How a token kind reads: its name, with an identifier's text in quotes
/// or a number's digits in parentheses.
pub open spec fn kind_text(kind: TokenKindView) -> Seq<char> {
    match kind {
        TokenKindView::Func => "Func"@,
        TokenKindView::Ident(name) => "Ident(\""@ + name + "\")"@,
        TokenKindView::OpenParen => "OpenParen"@,
        TokenKindView::CloseParen => "CloseParen"@,
        TokenKindView::Arrow => "Arrow"@,
        TokenKindView::OpenBrace => "OpenBrace"@,
        TokenKindView::CloseBrace => "CloseBrace"@,
        TokenKindView::Number(n) => "Number("@ + decimal_text(n) + ")"@,
        TokenKindView::Semi => "Semi"@,
    }
}

/// How the tokens `tokens` read: a line for each, its span and its kind.
pub open spec fn tokens_text(tokens: Seq<TokenView>) -> Seq<char>
    decreases tokens.len(),
{
    if tokens.len() == 0 {
        seq![]
    } else {
        let t = tokens.last();
        tokens_text(tokens.drop_last()) + span_text(t.start, t.end) + " "@ + kind_text(t.kind) + "\n"@
    }
}

impl<'src> TokenKind<'src> {
    /// This kind as it reads (see [`kind_text`]).
    pub fn text(&self) -> (text: String)
        ensures
            text@ == kind_text(self@),
    {
        match self {
            TokenKind::Func => "Func".to_owned(),
            TokenKind::Ident(name) => {
                let mut text = "Ident(\"".to_owned();
                text.append(name);
                text.append("\")");
                text
            },
            TokenKind::OpenParen => "OpenParen".to_owned(),
            TokenKind::CloseParen => "CloseParen".to_owned(),
            TokenKind::Arrow => "Arrow".to_owned(),
            TokenKind::OpenBrace => "OpenBrace".to_owned(),
            TokenKind::CloseBrace => "CloseBrace".to_owned(),
            TokenKind::Number(n) => {
                let mut text = "Number(".to_owned();
                let digits = decimal_string(*n as u64);
                text.append(digits.as_str());
                text.append(")");
                text
            },
            TokenKind::Semi => "Semi".to_owned(),
        }
    }
}

/// A token together with the span of source text it was read from.
#[derive(Debug, Clone, Copy)]
pub struct Token<'src> {
    kind: TokenKind<'src>,
    span: Span,
}

#[derive(Debug, Clone, Copy)]
pub enum TokenKind<'src> {
    Func,
    Ident(&'src str),
    OpenParen,
    CloseParen,
    Arrow,
    OpenBrace,
    CloseBrace,
    Number(usize),
    Semi,
}

/// What a token kind stands for: identifiers by their characters, numbers by
/// their value.
pub enum TokenKindView {
    Func,
    Ident(Seq<char>),
    OpenParen,
    CloseParen,
    Arrow,
    OpenBrace,
    CloseBrace,
    Number(nat),
    Semi,
}

/// A token as a kind and the start and end of its span.
pub struct TokenView {
    pub kind: TokenKindView,
    pub start: int,
    pub end: int,
}

impl View for TokenKind<'_> {
    type V = TokenKindView;

    open spec fn view(&self) -> TokenKindView {
        match self {
            TokenKind::Func => TokenKindView::Func,
            TokenKind::Ident(text) => TokenKindView::Ident(text@),
            TokenKind::OpenParen => TokenKindView::OpenParen,
            TokenKind::CloseParen => TokenKindView::CloseParen,
            TokenKind::Arrow => TokenKindView::Arrow,
            TokenKind::OpenBrace => TokenKindView::OpenBrace,
            TokenKind::CloseBrace => TokenKindView::CloseBrace,
            TokenKind::Number(n) => TokenKindView::Number(*n as nat),
            TokenKind::Semi => TokenKindView::Semi,
        }
    }
}

impl View for Token<'_> {
    type V = TokenView;

    closed spec fn view(&self) -> TokenView {
        TokenView { kind: self.kind@, start: self.span@.0, end: self.span@.1 }
    }
}

impl<'src> Token<'src> {
    pub fn kind(&self) -> (kind: TokenKind<'src>)
        ensures
            kind@ == self@.kind,
    {
        self.kind
    }

    pub fn span(&self) -> (span: Span)
        ensures
            span@ == (self@.start, self@.end),
    {
        self.span
    }
}

/// The tokens of a source text, in the order they appear.
#[derive(Clone)]
pub struct TokenTree<'src> {
    tokens: Vec<Token<'src>>,
}

impl View for TokenTree<'_> {
    type V = Seq<TokenView>;

    closed spec fn view(&self) -> Seq<TokenView> {
        self.tokens@.map_values(|t: Token| t@)
    }
}

impl Default for TokenTree<'_> {
    fn default() -> (tree: Self)
        ensures
            tree@ == Seq::<TokenView>::empty(),
    {
        let tree = TokenTree { tokens: Vec::new() };
        assert(tree@ =~= Seq::<TokenView>::empty());
        tree
    }
}

impl<'src> TokenTree<'src> {
    pub fn len(&self) -> (n: usize)
        ensures
            n == self@.len(),
    {
        self.tokens.len()
    }

    pub fn get(&self, i: usize) -> (token: Token<'src>)
        requires
            i < self@.len(),
        ensures
            token@ == self@[i as int],
    {
        self.tokens[i]
    }

    /// The tokens as they read (see [`tokens_text`]): a line for each, its
    /// span and its kind.
    pub fn text(&self) -> (text: String)
        ensures
            text@ == tokens_text(self@),
    {
        let mut text = String::new();
        let mut i: usize = 0;
        while i < self.tokens.len()
            invariant
                i <= self@.len(),
                self@.len() == self.tokens@.len(),
                text@ == tokens_text(self@.take(i as int)),
            decreases self.tokens@.len() - i,
        {
            let token = self.tokens[i];
            let ghost before = text@;
            let span = token.span.text();
            text.append(span.as_str());
            text.append(" ");
            let kind = token.kind.text();
            text.append(kind.as_str());
            text.append("\n");
            proof {
                let taken = self@.take(i + 1);
                assert(taken.drop_last() =~= self@.take(i as int));
                assert(taken.last() == token@);
                assert(text@ =~= before + span_text(token@.start, token@.end) + " "@ + kind_text(token@.kind) + "\n"@);
            }
            i = i + 1;
        }
        assert(self@.take(self@.len() as int) =~= self@);
        text
    }
}

// ---------------------------------------------------------------------------
// What tokenizing means
// ---------------------------------------------------------------------------

/// Number of consecutive characters of `s`, from index `i` on, in `class`.
pub open spec fn char_run(s: Seq<char>, i: int, class: CharClass) -> nat
    decreases s.len() - i,
{
    if 0 <= i < s.len() && class.spec_accepts(s[i]) {
        1 + char_run(s, i + 1, class)
    } else {
        0
    }
}

pub open spec fn digit_value(c: char) -> nat {
    (c as int - '0' as int) as nat
}

/// The value of a string of decimal digits, most significant first.
pub open spec fn decimal_value(digits: Seq<char>) -> nat
    decreases digits.len(),
{
    if digits.len() == 0 {
        0
    } else {
        10 * decimal_value(digits.drop_last()) + digit_value(digits.last())
    }
}

/// The one-character punctuation tokens.
pub open spec fn single_kind(c: char) -> Option<TokenKindView> {
    if c == '(' {
        Some(TokenKindView::OpenParen)
    } else if c == ')' {
        Some(TokenKindView::CloseParen)
    } else if c == '{' {
        Some(TokenKindView::OpenBrace)
    } else if c == '}' {
        Some(TokenKindView::CloseBrace)
    } else if c == ';' {
        Some(TokenKindView::Semi)
    } else {
        None
    }
}

pub open spec fn func_keyword() -> Seq<char> {
    seq!['f', 'u', 'n', 'c']
}

pub open spec fn token_at(kind: TokenKindView, start: int, end: int) -> TokenView {
    TokenView { kind, start, end }
}

/// One step of tokenizing at index `i` of `s`: the tokens it produces (none
/// for whitespace) and the index where the next step starts; `None` where the
/// text at `i` is no token (or a number too large for `usize`).
pub open spec fn lex_step(s: Seq<char>, i: int) -> Option<(Seq<TokenView>, int)> {
    let c = s[i];
    if is_ascii_whitespace(c) {
        Some((seq![], i + char_run(s, i, CharClass::Whitespace)))
    } else if c == '-' && i + 1 < s.len() && s[i + 1] == '>' {
        Some((seq![token_at(TokenKindView::Arrow, i, i + 2)], i + 2))
    } else if single_kind(c) is Some {
        Some((seq![token_at(single_kind(c)->0, i, i + 1)], i + 1))
    } else if is_ascii_alphabetic(c) {
        let end = i + 1 + char_run(s, i + 1, CharClass::Alphanumeric);
        let text = s.subrange(i, end);
        let kind = if text == func_keyword() {
            TokenKindView::Func
        } else {
            TokenKindView::Ident(text)
        };
        Some((seq![token_at(kind, i, end)], end))
    } else if is_ascii_digit(c) {
        let end = i + char_run(s, i, CharClass::Digit);
        let value = decimal_value(s.subrange(i, end));
        if value <= usize::MAX {
            Some((seq![token_at(TokenKindView::Number(value), i, end)], end))
        } else {
            None
        }
    } else {
        None
    }
}

/// The tokens of `s` from index `i` on; `None` when some step fails.
pub open spec fn lex_from(s: Seq<char>, i: int) -> Option<Seq<TokenView>>
    decreases s.len() - i,
{
    if 0 <= i < s.len() {
        match lex_step(s, i) {
            Some((tokens, next)) => if i < next <= s.len() {
                match lex_from(s, next) {
                    Some(rest) => Some(tokens + rest),
                    None => None,
                }
            } else {
                None
            },
            None => None,
        }
    } else {
        Some(seq![])
    }
}

/// The tokens of `s`. Tokenizing starts after the first character, which is
/// read and never looked at.
pub open spec fn lex(s: Seq<char>) -> Option<Seq<TokenView>> {
    lex_from(s, 1)
}

/// The sources that tokenize: text whose every token is valid and whose
/// numbers fit in a `usize`.
pub open spec fn tokenizes(source: &str) -> bool {
    lex(source@) is Some
}

/// How many bytes more than one the first character of `s` takes in UTF-8.
/// Where the characters after it are ASCII, the byte offset of character
/// `k` (from 1 on) is `k` plus this.
pub open spec fn lead(s: Seq<char>) -> int {
    if s.len() > 0 {
        byte_offset(s, 1) - 1
    } else {
        0
    }
}

/// Tokens with their spans moved by `d`.
pub open spec fn placed(tokens: Seq<TokenView>, d: int) -> Seq<TokenView> {
    Seq::new(tokens.len(), |k: int| token_at(tokens[k].kind, tokens[k].start + d, tokens[k].end + d))
}

/// The text under a token's span is what its kind says: the punctuation it
/// stands for, the keyword, the identifier's own characters, or the digits of
/// its number.
pub open spec fn token_text_matches(s: Seq<char>, t: TokenView) -> bool {
    let text = s.subrange(t.start, t.end);
    match t.kind {
        TokenKindView::Arrow => text == seq!['-', '>'],
        TokenKindView::OpenParen => text == seq!['('],
        TokenKindView::CloseParen => text == seq![')'],
        TokenKindView::OpenBrace => text == seq!['{'],
        TokenKindView::CloseBrace => text == seq!['}'],
        TokenKindView::Semi => text == seq![';'],
        TokenKindView::Func => text == func_keyword(),
        TokenKindView::Ident(name) => {
            &&& name == text
            &&& text != func_keyword()
            &&& text.len() > 0
            &&& is_ascii_alphabetic(text[0])
            &&& forall|k: int| 0 <= k < text.len() ==> CharClass::Alphanumeric.spec_accepts(#[trigger] text[k])
        },
        TokenKindView::Number(value) => {
            &&& text.len() > 0
            &&& forall|k: int| 0 <= k < text.len() ==> is_ascii_digit(#[trigger] text[k])
            &&& value == decimal_value(text)
        },
    }
}

/// `tokens` cut the text of `s` from index `from` on into tokens: each lies
/// inside it and matches its text, they come in order without overlapping,
/// and every character outside them is whitespace.
pub open spec fn tokenization_of(s: Seq<char>, from: int, tokens: Seq<TokenView>) -> bool {
    &&& forall|k: int|
        0 <= k < tokens.len() ==> from <= (#[trigger] tokens[k]).start < tokens[k].end <= s.len()
            && token_text_matches(s, tokens[k])
    &&& forall|k: int, l: int|
        0 <= k < l < tokens.len() ==> (#[trigger] tokens[k]).end <= (#[trigger] tokens[l]).start
    &&& forall|j: int|
        from <= j < s.len() && (forall|k: int|
            0 <= k < tokens.len() ==> !((#[trigger] tokens[k]).start <= j < tokens[k].end))
            ==> is_ascii_whitespace(#[trigger] s[j])
}

// ---------------------------------------------------------------------------
// Lemmas about the tokenizing steps
// ---------------------------------------------------------------------------

/// A run of a class stays inside `s`, holds only characters of the class and
/// stops before one that is not.
pub proof fn lemma_char_run(s: Seq<char>, i: int, class: CharClass)
    requires
        0 <= i <= s.len(),
    ensures
        i + char_run(s, i, class) <= s.len(),
        forall|k: int| i <= k < i + char_run(s, i, class) ==> class.spec_accepts(#[trigger] s[k]),
        i + char_run(s, i, class) < s.len() ==> !class.spec_accepts(s[i + char_run(s, i, class)]),
    decreases s.len() - i,
{
    if i < s.len() && class.spec_accepts(s[i]) {
        lemma_char_run(s, i + 1, class);
    }
}

/// Every step that succeeds moves forward and stays inside `s`.
pub proof fn lemma_step_advances(s: Seq<char>, i: int)
    requires
        0 <= i < s.len(),
        lex_step(s, i) is Some,
    ensures
        i < (lex_step(s, i)->0).1 <= s.len(),
{
    lemma_char_run(s, i, CharClass::Whitespace);
    lemma_char_run(s, i + 1, CharClass::Alphanumeric);
    lemma_char_run(s, i, CharClass::Digit);
}

/// The run that a cursor takes from its items is the run in the text they
/// come from.
pub proof fn lemma_class_run(items: Seq<(usize, char)>, s: Seq<char>, p: int, class: CharClass)
    requires
        0 <= p,
        p + items.len() == s.len(),
        forall|k: int| 0 <= k < items.len() ==> (#[trigger] items[k]).1 == s[p + k],
    ensures
        class_run(items, class) == char_run(s, p, class),
    decreases items.len(),
{
    if items.len() > 0 {
        assert(items[0].1 == s[p]);
        let rest = items.drop_first();
        assert forall|k: int| 0 <= k < rest.len() implies (#[trigger] rest[k]).1 == s[p + 1 + k] by {
            assert(rest[k] == items[k + 1]);
        }
        lemma_class_run(rest, s, p + 1, class);
    }
}

/// The value of a prefix of a digit string never exceeds the value of the string.
pub proof fn lemma_decimal_prefix(digits: Seq<char>, j: int)
    requires
        0 <= j <= digits.len(),
    ensures
        decimal_value(digits.take(j)) <= decimal_value(digits),
    decreases digits.len() - j,
{
    if j < digits.len() {
        lemma_decimal_prefix(digits, j + 1);
        assert(digits.take(j + 1).drop_last() =~= digits.take(j));
    } else {
        assert(digits.take(j) =~= digits);
    }
}

proof fn lemma_subrange_one(s: Seq<char>, p: int, c: char)
    requires
        0 <= p < s.len(),
    ensures
        (s.subrange(p, p + 1) == seq![c]) == (s[p] == c),
{
    assert(s.subrange(p, p + 1) =~= seq![s[p]]);
    if s.subrange(p, p + 1) == seq![c] {
        assert(seq![s[p]][0] == seq![c][0]);
    }
}

/// What every step produces: the text it skips is whitespace, the token it
/// makes covers exactly the text it reads.
proof fn lemma_step_shape(s: Seq<char>, i: int)
    requires
        0 <= i < s.len(),
        lex_step(s, i) is Some,
    ensures
        ({
            let (tokens, next) = lex_step(s, i)->0;
            &&& tokens.len() <= 1
            &&& tokens.len() == 0 ==> forall|j: int| i <= j < next ==> is_ascii_whitespace(#[trigger] s[j])
            &&& tokens.len() == 1 ==> tokens[0].start == i && tokens[0].end == next && token_text_matches(s, tokens[0])
        }),
{
    let c = s[i];
    lemma_char_run(s, i, CharClass::Whitespace);
    lemma_char_run(s, i + 1, CharClass::Alphanumeric);
    lemma_char_run(s, i, CharClass::Digit);
    lemma_subrange_one(s, i, c);
    if is_ascii_whitespace(c) {
    } else if c == '-' && i + 1 < s.len() && s[i + 1] == '>' {
        assert(s.subrange(i, i + 2) =~= seq!['-', '>']);
    } else if single_kind(c) is Some {
    } else if is_ascii_alphabetic(c) {
        let end = i + 1 + char_run(s, i + 1, CharClass::Alphanumeric);
        let text = s.subrange(i, end);
        assert forall|k: int| 0 <= k < text.len() implies CharClass::Alphanumeric.spec_accepts(#[trigger] text[k]) by {
            assert(text[k] == s[i + k]);
        }
    } else if is_ascii_digit(c) {
        let end = i + char_run(s, i, CharClass::Digit);
        let text = s.subrange(i, end);
        assert forall|k: int| 0 <= k < text.len() implies is_ascii_digit(#[trigger] text[k]) by {
            assert(text[k] == s[i + k]);
        }
    }
}

/// Tokenizing from `i` cuts the rest of the text into tokens.
proof fn lemma_lex_from_shape(s: Seq<char>, i: int)
    requires
        0 <= i,
        lex_from(s, i) is Some,
    ensures
        tokenization_of(s, i, lex_from(s, i)->0),
    decreases s.len() - i,
{
    if i < s.len() {
        let (first, next) = lex_step(s, i)->0;
        lemma_step_advances(s, i);
        lemma_step_shape(s, i);
        lemma_lex_from_shape(s, next);
        let rest = lex_from(s, next)->0;
        let tokens = first + rest;
        assert(lex_from(s, i)->0 == tokens);
        let off = first.len() as int;
        assert forall|k: int| 0 <= k < rest.len() implies #[trigger] tokens[k + off] == rest[k] by {}
        assert forall|k: int|
            0 <= k < tokens.len() implies i <= (#[trigger] tokens[k]).start < tokens[k].end <= s.len()
                && token_text_matches(s, tokens[k]) by {
            if k >= off {
                assert(tokens[k] == rest[k - off]);
            }
        }
        assert forall|k: int, l: int|
            0 <= k < l < tokens.len() implies (#[trigger] tokens[k]).end <= (#[trigger] tokens[l]).start by {
            if k >= off {
                assert(tokens[k] == rest[k - off]);
                assert(tokens[l] == rest[l - off]);
            } else {
                assert(tokens[l] == rest[l - off]);
            }
        }
        assert forall|j: int|
            i <= j < s.len() && (forall|k: int|
                0 <= k < tokens.len() ==> !((#[trigger] tokens[k]).start <= j < tokens[k].end))
                implies is_ascii_whitespace(#[trigger] s[j]) by {
            if j < next {
                if off == 1 {
                    assert(tokens[0] == first[0]);
                }
            } else {
                assert forall|k: int| 0 <= k < rest.len() implies !((#[trigger] rest[k]).start <= j < rest[k].end) by {
                    assert(tokens[k + off] == rest[k]);
                }
            }
        }
    } else {
        assert(lex_from(s, i)->0 =~= Seq::<TokenView>::empty());
    }
}

/// The byte offset of character `k` from 1 on, where the characters after
/// the first are ASCII.
proof fn lemma_offset_after_first(s: Seq<char>, k: int)
    requires
        1 <= k <= s.len(),
        is_ascii_chars(s.skip(1)),
    ensures
        byte_offset(s, k) == encode_utf8(seq![s[0]]).len() + (k - 1),
{
    let t = s.take(k);
    let tail = s.subrange(1, k);
    let one = seq![s[0]];
    assert(t.drop_first() =~= tail);
    assert(one.drop_first() =~= Seq::<char>::empty());
    assert(encode_utf8(one) == encode_scalar(s[0] as u32) + encode_utf8(Seq::<char>::empty()));
    assert(encode_utf8(one) =~= encode_scalar(s[0] as u32));
    assert(encode_utf8(t) == encode_scalar(t[0] as u32) + encode_utf8(tail));
    assert(is_ascii_chars(tail)) by {
        assert forall|j: int| 0 <= j < tail.len() implies '\0' <= #[trigger] tail[j] <= '\u{7f}' by {
            assert(tail[j] == s.skip(1)[j]);
        }
    }
    vstd::utf8::is_ascii_chars_encode_utf8(tail);
}

/// Where the characters after the first are ASCII, the byte offsets of the
/// characters from 1 on follow their indices by the lead of the first.
pub proof fn lemma_lead_offsets(s: Seq<char>)
    requires
        s.len() > 0,
        is_ascii_chars(s.skip(1)),
    ensures
        forall|k: int| 1 <= k <= s.len() ==> #[trigger] byte_offset(s, k) == k + lead(s),
        lead(s) >= 0,
        encode_utf8(s).len() == s.len() + lead(s),
{
    lemma_offset_after_first(s, 1);
    assert forall|k: int| 1 <= k <= s.len() implies #[trigger] byte_offset(s, k) == k + lead(s) by {
        lemma_offset_after_first(s, k);
    }
    lemma_offset_after_first(s, s.len() as int);
    assert(s.take(s.len() as int) =~= s);
}

/// Where tokenizing from `i` succeeds, every character from `i` on is ASCII.
pub proof fn lemma_lex_ascii(s: Seq<char>, i: int)
    requires
        0 <= i <= s.len(),
        lex_from(s, i) is Some,
    ensures
        forall|j: int| i <= j < s.len() ==> '\0' <= #[trigger] s[j] <= '\u{7f}',
    decreases s.len() - i,
{
    if i < s.len() {
        lemma_step_advances(s, i);
        let next = (lex_step(s, i)->0).1;
        lemma_lex_ascii(s, next);
        lemma_char_run(s, i, CharClass::Whitespace);
        lemma_char_run(s, i + 1, CharClass::Alphanumeric);
        lemma_char_run(s, i, CharClass::Digit);
        assert forall|j: int| i <= j < s.len() implies '\0' <= #[trigger] s[j] <= '\u{7f}' by {
            if j < next {
                if j > i && is_ascii_alphabetic(s[i]) {
                    assert(CharClass::Alphanumeric.spec_accepts(s[j]));
                }
            }
        }
    }
}

/// Moving spans keeps the kinds, so the last number stays.
proof fn lemma_last_number_placed(tokens: Seq<TokenView>, d: int)
    ensures
        last_number(placed(tokens, d)) == last_number(tokens),
    decreases tokens.len(),
{
    if tokens.len() > 0 {
        assert(placed(tokens, d).drop_last() =~= placed(tokens.drop_last(), d));
        lemma_last_number_placed(tokens.drop_last(), d);
    }
}

proof fn lemma_placed_concat(a: Seq<TokenView>, b: Seq<TokenView>, d: int)
    ensures
        placed(a + b, d) == placed(a, d) + placed(b, d),
{
    assert(placed(a + b, d) =~= placed(a, d) + placed(b, d));
}

/// Tokenizing cuts the text after the first character into tokens: each
/// token lies inside the text and reads exactly the characters its kind says,
/// the tokens come in order without overlapping, and only whitespace lies
/// outside them.
pub proof fn law_tokens_cover_source(s: Seq<char>)
    requires
        lex(s) is Some,
    ensures
        tokenization_of(s, 1, lex(s)->0),
{
    lemma_lex_from_shape(s, 1);
}

// ---------------------------------------------------------------------------
// Executable helpers on ASCII text
// ---------------------------------------------------------------------------

/// Whether two ASCII strings hold the same characters.
fn ascii_str_eq(a: &str, b: &str) -> (same: bool)
    requires
        is_ascii(a),
        is_ascii(b),
        a@.len() <= usize::MAX,
        b@.len() <= usize::MAX,
    ensures
        same == (a@ == b@),
{
    broadcast use vstd::string::is_ascii_spec_bytes;
    broadcast use vstd::utf8::is_ascii_chars_nat_bound;

    if a.len() != b.len() {
        return false;
    }
    let n = a.len();
    let mut i: usize = 0;
    while i < n
        invariant
            is_ascii(a),
            is_ascii(b),
            n == a@.len(),
            n == b@.len(),
            i <= n,
            forall|k: int| 0 <= k < i ==> a@[k] == b@[k],
        decreases n - i,
    {
        let x = a.get_ascii(i);
        let y = b.get_ascii(i);
        if x != y {
            return false;
        }
        assert(a@[i as int] == b@[i as int]) by {
            assert((a@[i as int] as nat) < 128);
            assert((b@[i as int] as nat) < 128);
        }
        i = i + 1;
    }
    assert(a@ =~= b@);
    true
}

/// The value of a string of ASCII digits, or `None` when it does not fit in a `usize`.
fn parse_decimal(text: &str) -> (value: Option<usize>)
    requires
        is_ascii(text),
        text@.len() <= usize::MAX,
        forall|k: int| 0 <= k < text@.len() ==> is_ascii_digit(#[trigger] text@[k]),
    ensures
        value == (if decimal_value(text@) <= usize::MAX {
            Some(decimal_value(text@) as usize)
        } else {
            None::<usize>
        }),
{
    broadcast use vstd::string::is_ascii_spec_bytes;

    let n = text.len();
    let mut value: usize = 0;
    let mut i: usize = 0;
    while i < n
        invariant
            is_ascii(text),
            forall|k: int| 0 <= k < text@.len() ==> is_ascii_digit(#[trigger] text@[k]),
            n == text@.len(),
            i <= n,
            value == decimal_value(text@.take(i as int)),
        decreases n - i,
    {
        let byte = text.get_ascii(i);
        let ghost c = text@[i as int];
        assert(is_ascii_digit(c));
        assert(byte - 48 == digit_value(c));
        let digit = byte - 48;
        assert(text@.take(i + 1).drop_last() =~= text@.take(i as int));
        match value.checked_mul(10) {
            Some(tens) => match tens.checked_add(digit as usize) {
                Some(next) => {
                    value = next;
                },
                None => {
                    proof {
                        lemma_decimal_prefix(text@, i + 1);
                    }
                    return None;
                },
            },
            None => {
                proof {
                    lemma_decimal_prefix(text@, i + 1);
                }
                return None;
            },
        }
        i = i + 1;
    }
    assert(text@.take(n as int) =~= text@);
    Some(value)
}

// ---------------------------------------------------------------------------
// The tokenizer
// ---------------------------------------------------------------------------

/// The state of tokenizing one source text: the characters still to read,
/// the tokens read so far and the span and first character of the token
/// being read.
struct TokenCtx<'src> {
    source: &'src str,
    chars: PeekNth<CharIndices<'src>>,
    tree: TokenTree<'src>,
    char: char,
    span: Span,
    /// The lead of the source's first character (see `lead`).
    shift: usize,
    /// The number of characters of the source.
    count: usize,
}

impl<'src> TokenCtx<'src> {
    /// The characters after the first are ASCII, the cursor is past the first
    /// and holds the characters from `pos()` on, each with its byte offset.
    spec fn inv(&self) -> bool {
        let s = self.source@;
        let items = cursor_items(self.chars);
        &&& s.len() > 0
        &&& is_ascii_chars(s.skip(1))
        &&& self.count == s.len()
        &&& self.shift == lead(s)
        &&& lead(s) >= 0
        &&& encode_utf8(s).len() == s.len() + lead(s)
        &&& encode_utf8(s).len() <= usize::MAX
        &&& items.len() < s.len()
        &&& forall|k: int|
            0 <= k < items.len() ==> #[trigger] items[k] == ((self.pos() + k + self.shift) as usize, s[self.pos() + k])
    }

    /// Index of the next character the cursor hands out.
    spec fn pos(&self) -> int {
        self.source@.len() - cursor_items(self.chars).len()
    }

    /// The fields besides the cursor and the span's end stay as they were.
    spec fn keeps(&self, other: &Self) -> bool {
        &&& self.source == other.source
        &&& self.tree == other.tree
        &&& self.char == other.char
        &&& self.span@.0 == other.span@.0
        &&& self.shift == other.shift
        &&& self.count == other.count
    }

    proof fn lemma_advance(&self, old_self: &Self, k: int)
        requires
            old_self.inv(),
            self.source == old_self.source,
            self.shift == old_self.shift,
            self.count == old_self.count,
            0 <= k <= cursor_items(old_self.chars).len(),
            cursor_items(self.chars) == cursor_items(old_self.chars).skip(k),
        ensures
            self.inv(),
            self.pos() == old_self.pos() + k,
    {
        let items = cursor_items(self.chars);
        let old_items = cursor_items(old_self.chars);
        assert forall|j: int| 0 <= j < items.len() implies #[trigger] items[j] == ((self.pos() + j + self.shift) as usize, self.source@[self.pos() + j]) by {
            assert(items[j] == old_items[j + k]);
        }
    }

    proof fn lemma_run(&self, class: CharClass)
        requires
            self.inv(),
        ensures
            class_run(cursor_items(self.chars), class) == char_run(self.source@, self.pos(), class),
    {
        let items = cursor_items(self.chars);
        assert forall|k: int| 0 <= k < items.len() implies (#[trigger] items[k]).1 == self.source@[self.pos() + k] by {}
        lemma_class_run(items, self.source@, self.pos(), class);
    }

    /// Reads the next character if it belongs to `class`.
    fn eat_if(&mut self, class: CharClass) -> (eaten: bool)
        requires
            old(self).inv(),
        ensures
            final(self).inv(),
            final(self).keeps(old(self)),
            eaten == (old(self).pos() < old(self).source@.len() && class.spec_accepts(
                old(self).source@[old(self).pos()],
            )),
            eaten ==> final(self).pos() == old(self).pos() + 1 && final(self).span@.1 == old(self).pos() + 1 + old(self).shift,
            !eaten ==> final(self).pos() == old(self).pos() && final(self).span@ == old(self).span@,
    {
        let ghost old_self = *self;
        let item = cursor_next_if(&mut self.chars, class);
        match item {
            Some((last, _)) => {
                proof {
                    self.lemma_advance(&old_self, 1);
                }
                self.span.end = last + 1;
                true
            },
            None => {
                proof {
                    assert(cursor_items(self.chars) =~= cursor_items(old_self.chars).skip(0));
                    self.lemma_advance(&old_self, 0);
                }
                false
            },
        }
    }

    /// Reads `needle` if the text from the start of the current span is `needle`.
    fn eat_eq(&mut self, needle: &str) -> (eaten: bool)
        requires
            old(self).inv(),
            is_ascii(needle),
            old(self).pos() < old(self).source@.len(),
            old(self).span@.1 == old(self).pos() + 1 + old(self).shift,
        ensures
            final(self).inv(),
            final(self).keeps(old(self)),
            ({
                let s = old(self).source@;
                let p = old(self).pos();
                eaten == (p + needle@.len() <= s.len() && s.subrange(p, p + needle@.len()) == needle@)
            }),
            eaten ==> final(self).pos() == old(self).pos() + needle@.len() && final(self).span@.1
                == old(self).pos() + needle@.len() + old(self).shift,
            eaten ==> cursor_items(final(self).chars) == cursor_items(old(self).chars).skip(needle@.len() as int),
            !eaten ==> *final(self) == *old(self),
            !eaten ==> final(self).pos() == old(self).pos() && final(self).span@ == old(self).span@,
    {
        broadcast use vstd::string::is_ascii_spec_bytes;

        let ghost old_self = *self;
        let ghost s = self.source@;
        let nlen = needle.unicode_len();
        assert(nlen == needle@.len());
        let start = self.span.end - 1;
        let first = start - self.shift;
        if nlen > self.count - first {
            return false;
        }
        let end = first + nlen;
        let text = self.source.substring_char(first, end);
        assert(is_ascii_chars(text@)) by {
            assert forall|j: int| 0 <= j < text@.len() implies '\0' <= #[trigger] text@[j] <= '\u{7f}' by {
                assert(text@[j] == s.skip(1)[first + j - 1]);
            }
        }
        if ascii_str_eq(text, needle) {
            self.span.end = start + nlen;

            let mut k: usize = 0;
            while k < nlen
                invariant
                    old_self.inv(),
                    self.keeps(&old_self),
                    self.span.end == start + nlen,
                    k <= nlen,
                    nlen <= cursor_items(old_self.chars).len(),
                    cursor_items(self.chars) == cursor_items(old_self.chars).skip(k as int),
                decreases nlen - k,
            {
                cursor_next(&mut self.chars);
                assert(cursor_items(self.chars) =~= cursor_items(old_self.chars).skip(k + 1));
                k = k + 1;
            }
            proof {
                self.lemma_advance(&old_self, nlen as int);
            }
            true
        } else {
            false
        }
    }

    /// Reads the longest run of characters in `class`.
    fn eat_while(&mut self, class: CharClass) -> (eaten: bool)
        requires
            old(self).inv(),
        ensures
            final(self).inv(),
            final(self).keeps(old(self)),
            ({
                let k = char_run(old(self).source@, old(self).pos(), class);
                &&& eaten == (k > 0)
                &&& final(self).pos() == old(self).pos() + k
                &&& eaten ==> final(self).span@.1 == old(self).pos() + k + old(self).shift
                &&& !eaten ==> final(self).span@ == old(self).span@
            }),
    {
        let ghost old_self = *self;
        proof {
            self.lemma_run(class);
        }
        let item = cursor_take_while_last(&mut self.chars, class);
        proof {
            lemma_char_run(old_self.source@, old_self.pos(), class);
            self.lemma_advance(&old_self, class_run(cursor_items(old_self.chars), class) as int);
        }
        match item {
            Some((last, _)) => {
                self.span.end = last + 1;
                true
            },
            None => false,
        }
    }

    /// Whether a token, or a run of whitespace, starts at the current
    /// character (see [`lex_step`]); reads nothing.
    fn step_defined(&self) -> (ok: bool)
        requires
            self.inv(),
            self.pos() < self.source@.len(),
            self.span@.0 == self.pos() + self.shift,
        ensures
            ok == lex_step(self.source@, self.pos()) is Some,
    {
        let ghost s = self.source@;
        let ghost p = self.pos();
        proof {
            lemma_char_run(s, p, CharClass::Digit);
        }
        let first = self.span.start - self.shift;
        let c = self.source.get_char(first);
        if CharClass::Whitespace.accepts(c) || c == '(' || c == ')' || c == '{' || c == '}' || c == ';'
            || CharClass::Alphabetic.accepts(c) {
            return true;
        }
        if c == '-' && first + 1 < self.count && self.source.get_char(first + 1) == '>' {
            return true;
        }
        if !CharClass::Digit.accepts(c) {
            return false;
        }
        let mut end: usize = first;
        while end < self.count && CharClass::Digit.accepts(self.source.get_char(end))
            invariant
                s == self.source@,
                self.count == s.len(),
                first == p,
                first <= end <= self.count,
                forall|k: int| first <= k < end ==> is_ascii_digit(#[trigger] s[k]),
                char_run(s, p, CharClass::Digit) == (end - first) + char_run(s, end as int, CharClass::Digit),
            decreases self.count - end,
        {
            end = end + 1;
        }
        let text = self.source.substring_char(first, end);
        assert(text@ == s.subrange(p, p + char_run(s, p, CharClass::Digit)));
        assert(is_ascii_chars(text@)) by {
            assert forall|j: int| 0 <= j < text@.len() implies '\0' <= #[trigger] text@[j] <= '\u{7f}' by {
                assert(text@[j] == s[p + j]);
            }
        }
        assert forall|k: int| 0 <= k < text@.len() implies is_ascii_digit(#[trigger] text@[k]) by {
            assert(text@[k] == s[p + k]);
        }
        parse_decimal(text).is_some()
    }

    /// Reads one token, or a run of whitespace, starting at the current
    /// character. The text there must start a token (see [`lex_step`]).
    fn tokenize_once(&mut self)
        requires
            old(self).inv(),
            old(self).pos() < old(self).source@.len(),
            old(self).span@ == (old(self).pos() + old(self).shift, old(self).pos() + 1 + old(self).shift),
            lex_step(old(self).source@, old(self).pos()) is Some,
        ensures
            final(self).inv(),
            final(self).source == old(self).source,
            final(self).shift == old(self).shift,
            final(self).count == old(self).count,
            final(self).tree@ == old(self).tree@ + placed(
                (lex_step(old(self).source@, old(self).pos())->0).0,
                old(self).shift as int,
            ),
            final(self).pos() == (lex_step(old(self).source@, old(self).pos())->0).1,
    {
        let ghost s = self.source@;
        let ghost p = self.pos();
        let ghost old_tree = self.tree@;
        proof {
            lemma_char_run(s, p, CharClass::Whitespace);
            lemma_char_run(s, p, CharClass::Digit);
            lemma_char_run(s, p + 1, CharClass::Alphanumeric);
            lemma_subrange_one(s, p, '(');
            lemma_subrange_one(s, p, ')');
            lemma_subrange_one(s, p, '{');
            lemma_subrange_one(s, p, '}');
            lemma_subrange_one(s, p, ';');
        }

        if self.eat_while(CharClass::Whitespace) {
            assert(self.tree@ =~= old_tree + Seq::<TokenView>::empty());
            return;
        }

        proof {
            reveal_strlit("->");
            reveal_strlit("(");
            reveal_strlit(")");
            reveal_strlit("{");
            reveal_strlit("}");
            reveal_strlit(";");
            reveal_strlit("func");
            assert("->"@ =~= seq!['-', '>']);
            assert("("@ =~= seq!['(']);
            assert(")"@ =~= seq![')']);
            assert("{"@ =~= seq!['{']);
            assert("}"@ =~= seq!['}']);
            assert(";"@ =~= seq![';']);
            assert("func"@ =~= func_keyword());
            if s[p] == '-' && p + 1 < s.len() && s[p + 1] == '>' {
                assert(s.subrange(p, p + 2) =~= seq!['-', '>']);
            }
        }

        if self.eat_eq("->") {
            self.push(TokenKind::Arrow);
            return;
        }
        if self.eat_eq("(") {
            self.push(TokenKind::OpenParen);
            return;
        }
        if self.eat_eq(")") {
            self.push(TokenKind::CloseParen);
            return;
        }
        if self.eat_eq("{") {
            self.push(TokenKind::OpenBrace);
            return;
        }
        if self.eat_eq("}") {
            self.push(TokenKind::CloseBrace);
            return;
        }
        if self.eat_eq(";") {
            self.push(TokenKind::Semi);
            return;
        }

        if self.eat_if(CharClass::Alphabetic) {
            self.eat_while(CharClass::Alphanumeric);
            let text = self.current_str();
            let kind = if ascii_str_eq(text, "func") {
                TokenKind::Func
            } else {
                TokenKind::Ident(text)
            };
            self.push(kind);
            return;
        }

        if self.eat_while(CharClass::Digit) {
            let text = self.current_str();
            match parse_decimal(text) {
                Some(value) => {
                    self.push(TokenKind::Number(value));
                    return;
                },
                None => {},
            }
        }
    }

    /// The text of the current span.
    fn current_str(&self) -> (text: &'src str)
        requires
            self.inv(),
            1 + self.shift <= self.span@.0 <= self.span@.1 <= self.source@.len() + self.shift,
        ensures
            text@ == self.source@.subrange(self.span@.0 - self.shift, self.span@.1 - self.shift),
            is_ascii(text),
    {
        let ghost s = self.source@;
        let text = self.source.substring_char(self.span.start - self.shift, self.span.end - self.shift);
        assert(is_ascii_chars(text@)) by {
            assert forall|j: int| 0 <= j < text@.len() implies '\0' <= #[trigger] text@[j] <= '\u{7f}' by {
                assert(text@[j] == s.skip(1)[self.span@.0 - self.shift + j - 1]);
            }
        }
        text
    }

    /// Records a token of `kind` over the current span.
    fn push(&mut self, kind: TokenKind<'src>)
        ensures
            final(self).source == old(self).source,
            final(self).char == old(self).char,
            final(self).span == old(self).span,
            final(self).shift == old(self).shift,
            final(self).count == old(self).count,
            cursor_items(final(self).chars) == cursor_items(old(self).chars),
            final(self).tree@ == old(self).tree@.push(token_at(kind@, old(self).span@.0, old(self).span@.1)),
    {
        self.tree.tokens.push(Token { kind, span: self.span });
        assert(self.tree@ =~= old(self).tree@.push(token_at(kind@, old(self).span@.0, old(self).span@.1)));
    }
}

/// The tokens of `source`, or `None` where `source` does not tokenize (see
/// [`tokenizes`]). Each token's span is the byte range of its text.
pub fn try_tokenize<'src>(source: &'src str) -> (tree: Option<TokenTree<'src>>)
    ensures
        tree is Some <==> tokenizes(source),
        tree matches Some(t) ==> t@ == placed(lex(source@)->0, lead(source@)),
{
    let ghost s = source@;
    let n = source.unicode_len();
    let total = source.as_bytes().len();
    let mut chars = cursor_new(source);
    let first = cursor_next(&mut chars);
    match first {
        None => {
            let tree = TokenTree::default();
            assert(placed(lex(s)->0, lead(s)) =~= tree@);
            Some(tree)
        },
        Some((start, char)) => {
            let rest = source.substring_char(1, n);
            if !rest.is_ascii() {
                proof {
                    if lex_from(s, 1) is Some {
                        lemma_lex_ascii(s, 1);
                        assert(is_ascii_chars(rest@)) by {
                            assert forall|j: int| 0 <= j < rest@.len() implies '\0' <= #[trigger] rest@[j] <= '\u{7f}' by {
                                assert(rest@[j] == s[j + 1]);
                            }
                        }
                    }
                }
                return None;
            }
            proof {
                assert(is_ascii_chars(s.skip(1))) by {
                    assert forall|j: int| 0 <= j < s.skip(1).len() implies '\0' <= #[trigger] s.skip(1)[j] <= '\u{7f}' by {
                        assert(s.skip(1)[j] == rest@[j]);
                    }
                }
                lemma_lead_offsets(s);
            }
            let shift = total - n;
            let mut ctx = TokenCtx { source, chars, tree: TokenTree::default(), char, span: Span::one(start), shift, count: n };
            proof {
                let items = cursor_items(ctx.chars);
                assert forall|k: int| 0 <= k < items.len() implies #[trigger] items[k] == ((ctx.pos() + k + ctx.shift) as usize, s[ctx.pos() + k]) by {
                    assert(items[k] == indexed_chars(s)[k + 1]);
                    assert(byte_offset(s, k + 1) == k + 1 + lead(s));
                }
                match lex_from(s, 1) {
                    Some(all) => assert(ctx.tree@ + placed(all, lead(s)) =~= placed(all, lead(s))),
                    None => {},
                }
            }
            loop
                invariant
                    ctx.inv(),
                    s == source@,
                    ctx.source == source,
                    ctx.shift == lead(s),
                    1 <= ctx.pos() <= s.len(),
                    match lex_from(s, ctx.pos()) {
                        Some(rest) => lex(s) is Some && placed(lex(s)->0, lead(s)) == ctx.tree@ + placed(rest, lead(s)),
                        None => lex(s) is None,
                    },
                ensures
                    ctx.inv(),
                    lex(s) is Some,
                    placed(lex(s)->0, lead(s)) == ctx.tree@,
                decreases s.len() - ctx.pos(),
            {
                let next = cursor_peek(&mut ctx.chars);
                match next {
                    None => {
                        assert(ctx.tree@ + placed(Seq::<TokenView>::empty(), lead(s)) =~= ctx.tree@);
                        break;
                    },
                    Some((start, char)) => {
                        let ghost before = ctx;
                        let ghost p = ctx.pos();
                        ctx.span = Span::one(start);
                        ctx.char = char;
                        if !ctx.step_defined() {
                            return None;
                        }
                        ctx.tokenize_once();
                        proof {
                            lemma_step_advances(s, p);
                            let (tokens, next_pos) = lex_step(s, p)->0;
                            match lex_from(s, next_pos) {
                                Some(rest) => {
                                    lemma_placed_concat(tokens, rest, lead(s));
                                    assert(before.tree@ + placed(tokens + rest, lead(s)) =~= ctx.tree@ + placed(rest, lead(s)));
                                },
                                None => {},
                            }
                        }
                    },
                }
            }
            Some(ctx.tree)
        },
    }
}

/// The tokens of `source`, each with the byte range of its text.
pub fn tokenize<'src>(source: &'src str) -> (tree: TokenTree<'src>)
    requires
        tokenizes(source),
    ensures
        tree@ == placed(lex(source@)->0, lead(source@)),
{
    match try_tokenize(source) {
        Some(tree) => tree,
        None => TokenTree::default(),
    }
}

/// The value of the last number token in `tokens`, or 0 where there is none.
pub open spec fn last_number(tokens: Seq<TokenView>) -> nat
    decreases tokens.len(),
{
    if tokens.len() == 0 {
        0
    } else {
        match tokens.last().kind {
            TokenKindView::Number(n) => n,
            _ => last_number(tokens.drop_last()),
        }
    }
}

/// The value of the last number in `input`, or 0 where there is none.
pub fn run(input: &str) -> (result: usize)
    requires
        tokenizes(input),
    ensures
        result == last_number(lex(input@)->0),
{
    let tokens = tokenize(input);
    proof {
        lemma_last_number_placed(lex(input@)->0, lead(input@));
    }
    let mut last: usize = 0;
    let mut i: usize = 0;
    while i < tokens.len()
        invariant
            i <= tokens@.len(),
            last == last_number(tokens@.take(i as int)),
        decreases tokens@.len() - i,
    {
        let token = tokens.get(i);
        assert(tokens@.take(i + 1).drop_last() =~= tokens@.take(i as int));
        match token.kind() {
            TokenKind::Number(num) => {
                last = num;
            },
            _ => {},
        }
        i = i + 1;
    }
    assert(tokens@.take(tokens@.len() as int) =~= tokens@);
    last
}


// ---------------------------------------------------------------------------
// Laws of tokenizing and running
// ---------------------------------------------------------------------------

/// Whitespace separates tokens. At a space, a tab, a line feed, a form feed
/// or a carriage return, a tokenizing step reads whitespace and makes no
/// token, and the tokens from there on are those from the next character on.
pub proof fn law_whitespace_separates(s: Seq<char>, i: int)
    requires
        0 <= i < s.len(),
        s[i] == ' ' || s[i] == '\t' || s[i] == '\n' || s[i] == '\x0C' || s[i] == '\r',
    ensures
        lex_step(s, i) matches Some((tokens, next)) && tokens.len() == 0 && i < next,
        lex_from(s, i) == lex_from(s, i + 1),
{
    lemma_char_run(s, i, CharClass::Whitespace);
    lemma_char_run(s, i + 1, CharClass::Whitespace);
    let next = i + char_run(s, i, CharClass::Whitespace);
    assert(next == i + 1 + char_run(s, i + 1, CharClass::Whitespace));
    if i + 1 < s.len() && is_ascii_whitespace(s[i + 1]) {
        assert(lex_step(s, i + 1) == Some((Seq::<TokenView>::empty(), next)));
    }
    match lex_from(s, next) {
        Some(rest) => {
            assert(Seq::<TokenView>::empty() + rest =~= rest);
        },
        None => {},
    }
}

/// The last number decides what `run` gives: the value of the number token
/// that comes last, whatever numbers come before it.
pub proof fn law_last_number_is_last(tokens: Seq<TokenView>, k: int)
    requires
        0 <= k < tokens.len(),
        tokens[k].kind is Number,
        forall|j: int| k < j < tokens.len() ==> !(tokens[j].kind is Number),
    ensures
        last_number(tokens) == tokens[k].kind->Number_0,
    decreases tokens.len(),
{
    if k < tokens.len() - 1 {
        law_last_number_is_last(tokens.drop_last(), k);
    }
}

/// With no number token, `run` gives 0.
pub proof fn law_last_number_none(tokens: Seq<TokenView>)
    requires
        forall|j: int| 0 <= j < tokens.len() ==> !(tokens[j].kind is Number),
    ensures
        last_number(tokens) == 0,
    decreases tokens.len(),
{
    if tokens.len() > 0 {
        law_last_number_none(tokens.drop_last());
    }
}

/// A number token added after the others decides alone, whatever came
/// before it.
pub proof fn law_last_number_appended(tokens: Seq<TokenView>, t: TokenView)
    requires
        t.kind is Number,
    ensures
        last_number(tokens.push(t)) == t.kind->Number_0,
{
    law_last_number_is_last(tokens.push(t), tokens.len() as int);
}

} // verus!
