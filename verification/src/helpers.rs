//! Character classifiers and the keyword table.

use vstd::prelude::*;
use crate::text::str_eq;
use crate::token_type::TokenType;

verus! {

/// `c` is one of the ASCII digits `0` to `9`.
pub open spec fn digit(c: char) -> bool {
    '0' <= c <= '9'
}

/// `c` is an ASCII letter or the underscore.
pub open spec fn alpha(c: char) -> bool {
    ('a' <= c <= 'z') || ('A' <= c <= 'Z') || c == '_'
}

/// `c` is an ASCII letter, an ASCII digit or the underscore.
pub open spec fn alpha_numeric(c: char) -> bool {
    alpha(c) || digit(c)
}

/// Tells whether `c` is an ASCII digit.
pub fn is_digit(c: char) -> (b: bool)
    ensures
        b == digit(c),
{
    c >= '0' && c <= '9'
}

/// Tells whether `c` may start an identifier.
pub fn is_alpha(c: char) -> (b: bool)
    ensures
        b == alpha(c),
{
    (c >= 'a' && c <= 'z') || (c >= 'A' && c <= 'Z') || c == '_'
}

/// Tells whether `c` may continue an identifier.
pub fn is_alpha_numeric(c: char) -> (b: bool)
    ensures
        b == alpha_numeric(c),
{
    is_alpha(c) || is_digit(c)
}

/// The keyword table: the token kind of each reserved word, and `None` for
/// any other text. The match is exact and on the whole text.
pub open spec fn keyword(text: Seq<char>) -> Option<TokenType> {
    if text == "and"@ {
        Some(TokenType::And)
    } else if text == "class"@ {
        Some(TokenType::Class)
    } else if text == "else"@ {
        Some(TokenType::Else)
    } else if text == "false"@ {
        Some(TokenType::False)
    } else if text == "for"@ {
        Some(TokenType::For)
    } else if text == "fun"@ {
        Some(TokenType::Fun)
    } else if text == "if"@ {
        Some(TokenType::If)
    } else if text == "nil"@ {
        Some(TokenType::Nil)
    } else if text == "or"@ {
        Some(TokenType::Or)
    } else if text == "print"@ {
        Some(TokenType::Print)
    } else if text == "return"@ {
        Some(TokenType::Return)
    } else if text == "super"@ {
        Some(TokenType::Super)
    } else if text == "this"@ {
        Some(TokenType::This)
    } else if text == "true"@ {
        Some(TokenType::True)
    } else if text == "var"@ {
        Some(TokenType::Var)
    } else if text == "while"@ {
        Some(TokenType::While)
    } else {
        None
    }
}

/// Looks `text` up in the keyword table.
pub fn keyword_type(text: &str) -> (kind: Option<TokenType>)
    ensures
        kind == keyword(text@),
{
    if str_eq(text, "and") {
        Some(TokenType::And)
    } else if str_eq(text, "class") {
        Some(TokenType::Class)
    } else if str_eq(text, "else") {
        Some(TokenType::Else)
    } else if str_eq(text, "false") {
        Some(TokenType::False)
    } else if str_eq(text, "for") {
        Some(TokenType::For)
    } else if str_eq(text, "fun") {
        Some(TokenType::Fun)
    } else if str_eq(text, "if") {
        Some(TokenType::If)
    } else if str_eq(text, "nil") {
        Some(TokenType::Nil)
    } else if str_eq(text, "or") {
        Some(TokenType::Or)
    } else if str_eq(text, "print") {
        Some(TokenType::Print)
    } else if str_eq(text, "return") {
        Some(TokenType::Return)
    } else if str_eq(text, "super") {
        Some(TokenType::Super)
    } else if str_eq(text, "this") {
        Some(TokenType::This)
    } else if str_eq(text, "true") {
        Some(TokenType::True)
    } else if str_eq(text, "var") {
        Some(TokenType::Var)
    } else if str_eq(text, "while") {
        Some(TokenType::While)
    } else {
        None
    }
}

} // verus!
