//! The lexical units of the data language.

use crate::decimal::{dec_chars, Decimal, DecimalView};
use vstd::prelude::*;
use vstd::string::StringExecFns;

verus! {

/// The closed set of tokens the lexer can produce.  A numeric literal
/// carries its exact decimal value; a string literal carries the enclosed
/// text; an unrecognized lexeme is carried verbatim as `Illegal`.
#[derive(Debug)]
pub enum Token {
    Eof,
    Illegal(String),
    Lbrace,
    Rbrace,
    Comma,
    Colon,
    TypeNumber,
    TypeString,
    Number(Decimal),
    String(String),
}

/// The mathematical model of a `Token`.
pub enum TokenV {
    Eof,
    Illegal(Seq<char>),
    Lbrace,
    Rbrace,
    Comma,
    Colon,
    TypeNumber,
    TypeString,
    Number(DecimalView),
    String(Seq<char>),
}

impl View for Token {
    type V = TokenV;

    open spec fn view(&self) -> TokenV {
        match self {
            Token::Eof => TokenV::Eof,
            Token::Illegal(s) => TokenV::Illegal(s@),
            Token::Lbrace => TokenV::Lbrace,
            Token::Rbrace => TokenV::Rbrace,
            Token::Comma => TokenV::Comma,
            Token::Colon => TokenV::Colon,
            Token::TypeNumber => TokenV::TypeNumber,
            Token::TypeString => TokenV::TypeString,
            Token::Number(d) => TokenV::Number(d@),
            Token::String(s) => TokenV::String(s@),
        }
    }
}

/// The token as error reports show it: structural tokens as their symbol,
/// type keywords and illegal lexemes with a bracketed tag, literals as their
/// text.
pub open spec fn token_text(t: TokenV) -> Seq<char> {
    match t {
        TokenV::Eof => "EOF"@,
        TokenV::Illegal(s) => "[Illegal Token] "@ + s,
        TokenV::Lbrace => "{"@,
        TokenV::Rbrace => "}"@,
        TokenV::Comma => ","@,
        TokenV::Colon => ":"@,
        TokenV::TypeNumber => "[Type Annotation] Number"@,
        TokenV::TypeString => "[Type Annotation] String"@,
        TokenV::Number(d) => dec_chars(d),
        TokenV::String(s) => s,
    }
}

impl Token {
    /// The token as text, for error reports.
    pub fn render(&self) -> (s: String)
        ensures
            s@ == token_text(self@),
    {
        match self {
            Token::Eof => String::from_str("EOF"),
            Token::Illegal(text) => {
                let mut s = String::from_str("[Illegal Token] ");
                s.append(text.as_str());
                s
            },
            Token::Lbrace => String::from_str("{"),
            Token::Rbrace => String::from_str("}"),
            Token::Comma => String::from_str(","),
            Token::Colon => String::from_str(":"),
            Token::TypeNumber => String::from_str("[Type Annotation] Number"),
            Token::TypeString => String::from_str("[Type Annotation] String"),
            Token::Number(d) => d.render(),
            Token::String(text) => text.clone(),
        }
    }
}

impl Clone for Token {
    fn clone(&self) -> (t: Self)
        ensures
            t@ == self@,
    {
        match self {
            Token::Eof => Token::Eof,
            Token::Illegal(s) => Token::Illegal(s.clone()),
            Token::Lbrace => Token::Lbrace,
            Token::Rbrace => Token::Rbrace,
            Token::Comma => Token::Comma,
            Token::Colon => Token::Colon,
            Token::TypeNumber => Token::TypeNumber,
            Token::TypeString => Token::TypeString,
            Token::Number(d) => Token::Number(d.clone()),
            Token::String(s) => Token::String(s.clone()),
        }
    }
}

} // verus!
