//! The tokens of the language.

use vstd::prelude::*;

verus! {

#[derive(Debug, Clone, Copy, PartialEq)]
pub enum Token<'src> {
    /// Text that no token matches.
    Error,
    Whitespace,
    /// A run of decimal digits, as written.
    Int(&'src str),
    Ident(&'src str),
    /// A string literal: the text between its quotes, escapes as written.
    String(&'src str),
    OpenParen,
    CloseParen,
    OpenBracket,
    CloseBracket,
    OpenBrace,
    CloseBrace,
    Add,
    Sub,
    Mul,
    Div,
    Arrow,
    Bang,
    Semi,
    Comma,
    Colon,
    Dot,
    Underscore,
    Func,
    Match,
    TUnit,
    TInt,
    TFloat,
    TString,
}

pub enum TokenV {
    Error,
    Whitespace,
    Int(Seq<char>),
    Ident(Seq<char>),
    String(Seq<char>),
    OpenParen,
    CloseParen,
    OpenBracket,
    CloseBracket,
    OpenBrace,
    CloseBrace,
    Add,
    Sub,
    Mul,
    Div,
    Arrow,
    Bang,
    Semi,
    Comma,
    Colon,
    Dot,
    Underscore,
    Func,
    Match,
    TUnit,
    TInt,
    TFloat,
    TString,
}

impl View for Token<'_> {
    type V = TokenV;

    open spec fn view(&self) -> TokenV {
        match self {
            Token::Error => TokenV::Error,
            Token::Whitespace => TokenV::Whitespace,
            Token::Int(s) => TokenV::Int(s@),
            Token::Ident(s) => TokenV::Ident(s@),
            Token::String(s) => TokenV::String(s@),
            Token::OpenParen => TokenV::OpenParen,
            Token::CloseParen => TokenV::CloseParen,
            Token::OpenBracket => TokenV::OpenBracket,
            Token::CloseBracket => TokenV::CloseBracket,
            Token::OpenBrace => TokenV::OpenBrace,
            Token::CloseBrace => TokenV::CloseBrace,
            Token::Add => TokenV::Add,
            Token::Sub => TokenV::Sub,
            Token::Mul => TokenV::Mul,
            Token::Div => TokenV::Div,
            Token::Arrow => TokenV::Arrow,
            Token::Bang => TokenV::Bang,
            Token::Semi => TokenV::Semi,
            Token::Comma => TokenV::Comma,
            Token::Colon => TokenV::Colon,
            Token::Dot => TokenV::Dot,
            Token::Underscore => TokenV::Underscore,
            Token::Func => TokenV::Func,
            Token::Match => TokenV::Match,
            Token::TUnit => TokenV::TUnit,
            Token::TInt => TokenV::TInt,
            Token::TFloat => TokenV::TFloat,
            Token::TString => TokenV::TString,
        }
    }
}

/// How a token reads when shown to the user: the text of an integer, an
/// identifier or a string (without its quotes), the symbol or keyword of
/// any other token.
pub open spec fn token_text(t: TokenV) -> Seq<char> {
    match t {
        TokenV::Int(text) => text,
        TokenV::Ident(text) => text,
        TokenV::String(text) => text,
        TokenV::Error => "<error>"@,
        TokenV::Whitespace => "<whitespace>"@,
        TokenV::OpenParen => "("@,
        TokenV::CloseParen => ")"@,
        TokenV::OpenBracket => "["@,
        TokenV::CloseBracket => "]"@,
        TokenV::OpenBrace => "{"@,
        TokenV::CloseBrace => "}"@,
        TokenV::Add => "+"@,
        TokenV::Sub => "-"@,
        TokenV::Mul => "*"@,
        TokenV::Div => "/"@,
        TokenV::Arrow => "->"@,
        TokenV::Bang => "!"@,
        TokenV::Semi => ";"@,
        TokenV::Comma => ","@,
        TokenV::Colon => ":"@,
        TokenV::Dot => "."@,
        TokenV::Underscore => "_"@,
        TokenV::Func => "func"@,
        TokenV::Match => "match"@,
        TokenV::TUnit => "unit"@,
        TokenV::TInt => "int"@,
        TokenV::TFloat => "float"@,
        TokenV::TString => "string"@,
    }
}

impl<'src> Token<'src> {
    /// The text of this token as shown to the user (see `token_text`).
    pub fn text(&self) -> (text: &'src str)
        ensures
            text@ == token_text(self@),
    {
        match self {
            Token::Int(text) => text,
            Token::Ident(text) => text,
            Token::String(text) => text,
            Token::Error => "<error>",
            Token::Whitespace => "<whitespace>",
            Token::OpenParen => "(",
            Token::CloseParen => ")",
            Token::OpenBracket => "[",
            Token::CloseBracket => "]",
            Token::OpenBrace => "{",
            Token::CloseBrace => "}",
            Token::Add => "+",
            Token::Sub => "-",
            Token::Mul => "*",
            Token::Div => "/",
            Token::Arrow => "->",
            Token::Bang => "!",
            Token::Semi => ";",
            Token::Comma => ",",
            Token::Colon => ":",
            Token::Dot => ".",
            Token::Underscore => "_",
            Token::Func => "func",
            Token::Match => "match",
            Token::TUnit => "unit",
            Token::TInt => "int",
            Token::TFloat => "float",
            Token::TString => "string",
        }
    }
}

} // verus!
