//! Tokens and their literal payloads.

use vstd::prelude::*;
use crate::token_type::TokenType;

verus! {

/// The numeric value of a sequence of decimal digits, most significant first.
pub open spec fn digits_value(digits: Seq<u8>) -> nat
    decreases digits.len(),
{
    if digits.len() == 0 {
        0
    } else {
        digits_value(digits.drop_last()) * 10 + digits.last() as nat
    }
}

/// The power of ten with exponent `n`.
pub open spec fn pow10(n: nat) -> nat
    decreases n,
{
    if n == 0 {
        1
    } else {
        10 * pow10((n - 1) as nat)
    }
}

/// Digits written one after the other: the value of the first sequence is
/// shifted by the length of the second.
pub proof fn lemma_digits_value_concat(a: Seq<u8>, b: Seq<u8>)
    ensures
        digits_value(a + b) == digits_value(a) * pow10(b.len()) + digits_value(b),
    decreases b.len(),
{
    let x = digits_value(a);
    if b.len() == 0 {
        assert(a + b =~= a);
        assert(x * 1 == x) by (nonlinear_arith);
    } else {
        let front = b.drop_last();
        assert((a + b).drop_last() =~= a + front);
        assert((a + b).last() == b.last());
        lemma_digits_value_concat(a, front);
        let p = pow10(front.len());
        let y = digits_value(front);
        assert(pow10(b.len()) == 10 * p);
        assert(digits_value(a + b) == (x * p + y) * 10 + b.last() as nat);
        assert(digits_value(b) == y * 10 + b.last() as nat);
        assert((x * p + y) * 10 == x * (10 * p) + y * 10) by (nonlinear_arith);
    }
}

/// A non-negative decimal number, held exactly.
///
/// `digits` are the decimal digits of the number with the decimal point taken
/// out, most significant first, and `scale` is the number of those digits that
/// stood after the point: the number is `digits_value(digits) / 10^scale`.
#[derive(Debug, Clone, PartialEq, Eq)]
pub struct Decimal {
    pub digits: Vec<u8>,
    pub scale: usize,
}

/// The mathematical content of a [`Decimal`].
pub struct DecimalView {
    pub digits: Seq<u8>,
    pub scale: nat,
}

impl DecimalView {
    /// Every digit is below ten, there is at least one digit before the
    /// point, and the digits after the point are among those held.
    pub open spec fn wf(self) -> bool {
        &&& self.scale < self.digits.len()
        &&& forall|i: int| 0 <= i < self.digits.len() ==> #[trigger] self.digits[i] <= 9
    }

    /// The number with the decimal point taken out: the value times
    /// `10^scale`.
    pub open spec fn mantissa(self) -> nat {
        digits_value(self.digits)
    }
}

impl View for Decimal {
    type V = DecimalView;

    open spec fn view(&self) -> DecimalView {
        DecimalView { digits: self.digits@, scale: self.scale as nat }
    }
}

/// The value that a literal token denotes.
#[derive(Debug, Clone, PartialEq)]
pub enum Literal {
    /// The raw text between the quotes of a string literal.
    String(String),
    /// The value of a number literal.
    Number(Decimal),
}

/// The mathematical content of a [`Literal`].
pub enum LiteralView {
    String(Seq<char>),
    Number(DecimalView),
}

impl View for Literal {
    type V = LiteralView;

    open spec fn view(&self) -> LiteralView {
        match self {
            Literal::String(text) => LiteralView::String(text@),
            Literal::Number(value) => LiteralView::Number(value@),
        }
    }
}

/// A classified unit of source text.
#[derive(Debug, Clone, PartialEq)]
pub struct Token {
    pub token_type: TokenType,
    pub lexeme: String,
    pub literal: Option<Literal>,
    pub line: usize,
}

/// The mathematical content of a [`Token`].
pub struct TokenView {
    pub token_type: TokenType,
    pub lexeme: Seq<char>,
    pub literal: Option<LiteralView>,
    pub line: nat,
}

/// The content of an optional literal.
pub open spec fn literal_view(literal: Option<Literal>) -> Option<LiteralView> {
    match literal {
        Some(l) => Some(l@),
        None => None,
    }
}

impl View for Token {
    type V = TokenView;

    open spec fn view(&self) -> TokenView {
        TokenView {
            token_type: self.token_type,
            lexeme: self.lexeme@,
            literal: literal_view(self.literal),
            line: self.line as nat,
        }
    }
}

/// The contents of a sequence of tokens, in order.
pub open spec fn token_views(tokens: Seq<Token>) -> Seq<TokenView> {
    Seq::new(tokens.len(), |i: int| tokens[i]@)
}

impl Token {
    /// Puts a token together from its parts.
    pub fn new(token_type: TokenType, lexeme: String, literal: Option<Literal>, line: usize) -> (token:
        Self)
        ensures
            token.token_type == token_type,
            token.lexeme == lexeme,
            token.literal == literal,
            token.line == line,
    {
        Self { token_type, lexeme, literal, line }
    }
}

} // verus!
