//! The lexical grammar, as a mathematical model of the scan.
//!
//! The source text is a sequence of characters and a position is an index
//! into it. [`lex_step`] says what one dispatch at a position consumes and
//! produces; [`scan_from`] chains the steps to the end of the text, and
//! [`scan`] is the whole pass.

use vstd::prelude::*;
use crate::error::{ScanErrorKind, ScanErrorView};
use crate::helpers::{alpha, alpha_numeric, digit, keyword};
use crate::token::{DecimalView, LiteralView, TokenView};
use crate::token_type::TokenType;

verus! {

/// The character at index `i`, or the null character at or past the end of
/// the text.
pub open spec fn peek_at(src: Seq<char>, i: int) -> char {
    if 0 <= i < src.len() {
        src[i]
    } else {
        '\0'
    }
}

/// The kinds of maximal runs of characters that the grammar consumes.
pub enum Run {
    /// ASCII digits.
    Digits,
    /// ASCII letters, digits and underscores.
    Word,
    /// Anything but a newline.
    Line,
    /// Anything but a double quote.
    Text,
}

/// Tells whether `c` continues a run of the given kind.
pub open spec fn continues(run: Run, c: char) -> bool {
    match run {
        Run::Digits => digit(c),
        Run::Word => alpha_numeric(c),
        Run::Line => c != '\n',
        Run::Text => c != '"',
    }
}

/// The end of the maximal run of the given kind that starts at `pos`: the
/// first index from `pos` on that holds a character which does not continue
/// the run, or the length of the text.
pub open spec fn run_end(src: Seq<char>, pos: int, run: Run) -> int
    decreases src.len() - pos,
{
    if 0 <= pos < src.len() && continues(run, src[pos]) {
        run_end(src, pos + 1, run)
    } else {
        pos
    }
}

/// The number of newline characters at the indices `from..to`.
pub open spec fn newlines(src: Seq<char>, from: int, to: int) -> nat
    decreases to - from,
{
    if from >= to {
        0
    } else {
        newlines(src, from, to - 1) + if peek_at(src, to - 1) == '\n' {
            1nat
        } else {
            0nat
        }
    }
}

/// Where a block comment ends, and whether it was closed there.
pub struct CommentEnd {
    pub end: int,
    pub closed: bool,
}

/// The end of a block comment of which `depth` levels are open at `pos`.
///
/// An opening pair `/*` adds a level and a closing pair `*/` takes one away,
/// each consumed as two characters; any other character is consumed alone.
/// The comment is closed where no level is left open, and it is not closed
/// when the text ends before that.
pub open spec fn comment_end(src: Seq<char>, pos: int, depth: nat) -> CommentEnd
    decreases src.len() - pos,
{
    if depth == 0 {
        CommentEnd { end: pos, closed: true }
    } else if pos >= src.len() {
        CommentEnd { end: pos, closed: false }
    } else if peek_at(src, pos) == '/' && peek_at(src, pos + 1) == '*' {
        comment_end(src, pos + 2, depth + 1)
    } else if peek_at(src, pos) == '*' && peek_at(src, pos + 1) == '/' {
        comment_end(src, pos + 2, (depth - 1) as nat)
    } else {
        comment_end(src, pos + 1, depth)
    }
}

/// The token kind of a single-character punctuation mark other than the
/// slash, and `None` for any other character.
pub open spec fn punctuation(c: char) -> Option<TokenType> {
    if c == '(' {
        Some(TokenType::LeftParen)
    } else if c == ')' {
        Some(TokenType::RightParen)
    } else if c == '{' {
        Some(TokenType::LeftBrace)
    } else if c == '}' {
        Some(TokenType::RightBrace)
    } else if c == ',' {
        Some(TokenType::Comma)
    } else if c == '.' {
        Some(TokenType::Dot)
    } else if c == '-' {
        Some(TokenType::Minus)
    } else if c == '+' {
        Some(TokenType::Plus)
    } else if c == ';' {
        Some(TokenType::Semicolon)
    } else if c == '*' {
        Some(TokenType::Star)
    } else {
        None
    }
}

/// The token kind of an operator that starts with `c`, alone or followed by
/// `=`, and `None` where `c` starts no such operator.
pub open spec fn operator(c: char, with_equal: bool) -> Option<TokenType> {
    if c == '!' {
        Some(if with_equal { TokenType::BangEqual } else { TokenType::Bang })
    } else if c == '=' {
        Some(if with_equal { TokenType::EqualEqual } else { TokenType::Equal })
    } else if c == '<' {
        Some(if with_equal { TokenType::LessEqual } else { TokenType::Less })
    } else if c == '>' {
        Some(if with_equal { TokenType::GreaterEqual } else { TokenType::Greater })
    } else {
        None
    }
}

/// Space, carriage return and tab: the characters that are skipped without
/// any effect.
pub open spec fn blank(c: char) -> bool {
    c == ' ' || c == '\r' || c == '\t'
}

/// The value of a decimal digit.
pub open spec fn digit_value(c: char) -> u8 {
    (c as u32 - '0' as u32) as u8
}

/// The values of a sequence of decimal digits.
pub open spec fn digit_values(s: Seq<char>) -> Seq<u8> {
    Seq::new(s.len(), |i: int| digit_value(s[i]))
}

/// The value of the number literal at `start..end`, whose digits before the
/// point end at `whole_end`.
pub open spec fn number_value(src: Seq<char>, start: int, whole_end: int, end: int) -> DecimalView {
    if whole_end < end {
        DecimalView {
            digits: digit_values(src.subrange(start, whole_end)) + digit_values(
                src.subrange(whole_end + 1, end),
            ),
            scale: (end - whole_end - 1) as nat,
        }
    } else {
        DecimalView { digits: digit_values(src.subrange(start, whole_end)), scale: 0 }
    }
}

/// Where the number literal that starts at `pos` ends: after the maximal run
/// of digits, and after a further point and run of digits where the point is
/// directly followed by a digit.
pub open spec fn number_end(src: Seq<char>, pos: int) -> int {
    let whole_end = run_end(src, pos, Run::Digits);
    if peek_at(src, whole_end) == '.' && digit(peek_at(src, whole_end + 1)) {
        run_end(src, whole_end + 1, Run::Digits)
    } else {
        whole_end
    }
}

/// What one dispatch does: where the next one starts, the line that is
/// current then, and the token and the error that it produced, if any.
pub struct Step {
    pub next: int,
    pub line: nat,
    pub token: Option<TokenView>,
    pub error: Option<ScanErrorView>,
}

/// A step that consumes `pos..end`, stays on the line and produces nothing.
pub open spec fn skip_to(end: int, line: nat) -> Step {
    Step { next: end, line, token: None, error: None }
}

/// A step that consumes `pos..end` as a token without a literal.
pub open spec fn plain_token(src: Seq<char>, pos: int, end: int, kind: TokenType, line: nat) -> Step {
    Step {
        next: end,
        line,
        token: Some(
            TokenView { token_type: kind, lexeme: src.subrange(pos, end), literal: None, line },
        ),
        error: None,
    }
}

/// The dispatch on the character at `pos`, with `line` the current line.
pub open spec fn lex_step(src: Seq<char>, pos: int, line: nat) -> Step
    recommends
        0 <= pos < src.len(),
{
    let c = src[pos];
    let follower = peek_at(src, pos + 1);
    if punctuation(c) is Some {
        plain_token(src, pos, pos + 1, punctuation(c)->0, line)
    } else if operator(c, false) is Some {
        if follower == '=' {
            plain_token(src, pos, pos + 2, operator(c, true)->0, line)
        } else {
            plain_token(src, pos, pos + 1, operator(c, false)->0, line)
        }
    } else if c == '/' {
        if follower == '/' {
            skip_to(run_end(src, pos + 2, Run::Line), line)
        } else if follower == '*' {
            let comment = comment_end(src, pos + 2, 1);
            let last_line = line + newlines(src, pos + 2, comment.end);
            Step {
                next: comment.end,
                line: last_line,
                token: None,
                error: if comment.closed {
                    None
                } else {
                    Some(
                        ScanErrorView {
                            kind: ScanErrorKind::UnterminatedBlockComment,
                            line: last_line,
                        },
                    )
                },
            }
        } else {
            plain_token(src, pos, pos + 1, TokenType::Slash, line)
        }
    } else if blank(c) {
        skip_to(pos + 1, line)
    } else if c == '\n' {
        skip_to(pos + 1, line + 1)
    } else if c == '"' {
        let close = run_end(src, pos + 1, Run::Text);
        let last_line = line + newlines(src, pos + 1, close);
        if close >= src.len() {
            Step {
                next: close,
                line: last_line,
                token: None,
                error: Some(
                    ScanErrorView { kind: ScanErrorKind::UnterminatedString, line: last_line },
                ),
            }
        } else {
            Step {
                next: close + 1,
                line: last_line,
                token: Some(
                    TokenView {
                        token_type: TokenType::String,
                        lexeme: src.subrange(pos, close + 1),
                        literal: Some(LiteralView::String(src.subrange(pos + 1, close))),
                        line: last_line,
                    },
                ),
                error: None,
            }
        }
    } else if digit(c) {
        let whole_end = run_end(src, pos, Run::Digits);
        let end = number_end(src, pos);
        Step {
            next: end,
            line,
            token: Some(
                TokenView {
                    token_type: TokenType::Number,
                    lexeme: src.subrange(pos, end),
                    literal: Some(LiteralView::Number(number_value(src, pos, whole_end, end))),
                    line,
                },
            ),
            error: None,
        }
    } else if alpha(c) {
        let end = run_end(src, pos, Run::Word);
        let kind = match keyword(src.subrange(pos, end)) {
            Some(k) => k,
            None => TokenType::Identifier,
        };
        plain_token(src, pos, end, kind, line)
    } else {
        Step {
            next: pos + 1,
            line,
            token: None,
            error: Some(ScanErrorView { kind: ScanErrorKind::UnexpectedCharacter, line }),
        }
    }
}

/// The end-marker token on the given line.
pub open spec fn end_marker(line: nat) -> TokenView {
    TokenView { token_type: TokenType::Eof, lexeme: Seq::empty(), literal: None, line }
}

/// The sequence of no element or of the one element given.
pub open spec fn optional<T>(item: Option<T>) -> Seq<T> {
    match item {
        Some(x) => seq![x],
        None => Seq::empty(),
    }
}

/// What a scan produces: the tokens in source order, closed by the
/// end-marker, and the errors in the order in which they were found.
pub struct Scan {
    pub tokens: Seq<TokenView>,
    pub errors: Seq<ScanErrorView>,
}

/// A block comment never ends before the position it is entered at, nor past
/// the end of the text.
pub proof fn lemma_comment_end_bounds(src: Seq<char>, pos: int, depth: nat)
    requires
        0 <= pos <= src.len(),
    ensures
        pos <= comment_end(src, pos, depth).end <= src.len(),
        !comment_end(src, pos, depth).closed ==> comment_end(src, pos, depth).end == src.len(),
    decreases src.len() - pos,
{
    if depth == 0 {
    } else if pos >= src.len() {
    } else if peek_at(src, pos) == '/' && peek_at(src, pos + 1) == '*' {
        lemma_comment_end_bounds(src, pos + 2, depth + 1);
    } else if peek_at(src, pos) == '*' && peek_at(src, pos + 1) == '/' {
        lemma_comment_end_bounds(src, pos + 2, (depth - 1) as nat);
    } else {
        lemma_comment_end_bounds(src, pos + 1, depth);
    }
}

/// A run holds only characters that continue it, and ends at the end of the
/// text or before a character that does not continue it.
pub proof fn lemma_run_end_is_maximal(src: Seq<char>, pos: int, run: Run)
    requires
        0 <= pos <= src.len(),
    ensures
        pos <= run_end(src, pos, run) <= src.len(),
        forall|i: int| pos <= i < run_end(src, pos, run) ==> continues(run, #[trigger] src[i]),
        run_end(src, pos, run) < src.len() ==> !continues(run, src[run_end(src, pos, run)]),
    decreases src.len() - pos,
{
    if pos < src.len() && continues(run, src[pos]) {
        lemma_run_end_is_maximal(src, pos + 1, run);
    }
}

/// Counting newlines over one more character adds that character, if it is a
/// newline.
pub proof fn lemma_newlines_step(src: Seq<char>, from: int, to: int)
    requires
        from <= to,
    ensures
        newlines(src, from, to + 1) == newlines(src, from, to) + if peek_at(src, to) == '\n' {
            1nat
        } else {
            0nat
        },
{
}

/// Newline counts add up over adjacent ranges.
pub proof fn lemma_newlines_split(src: Seq<char>, from: int, mid: int, to: int)
    requires
        from <= mid <= to,
    ensures
        newlines(src, from, to) == newlines(src, from, mid) + newlines(src, mid, to),
    decreases to - mid,
{
    if mid < to {
        lemma_newlines_split(src, from, mid, to - 1);
    }
}

/// A range that holds no newline counts none.
pub proof fn lemma_no_newlines(src: Seq<char>, from: int, to: int)
    requires
        forall|i: int| from <= i < to ==> peek_at(src, i) != '\n',
    ensures
        newlines(src, from, to) == 0,
    decreases to - from,
{
    if from < to {
        lemma_no_newlines(src, from, to - 1);
    }
}

/// Every dispatch consumes at least one character and stays within the text.
pub proof fn lemma_step_advances(src: Seq<char>, pos: int, line: nat)
    requires
        0 <= pos < src.len(),
    ensures
        pos < lex_step(src, pos, line).next <= src.len(),
{
    let c = src[pos];
    lemma_run_end_is_maximal(src, pos, Run::Digits);
    lemma_run_end_is_maximal(src, pos, Run::Word);
    lemma_run_end_is_maximal(src, pos + 1, Run::Text);
    if c == '/' && peek_at(src, pos + 1) == '/' {
        lemma_run_end_is_maximal(src, pos + 2, Run::Line);
    }
    if c == '/' && peek_at(src, pos + 1) == '*' {
        lemma_comment_end_bounds(src, pos + 2, 1);
    }
    if digit(c) {
        let whole_end = run_end(src, pos, Run::Digits);
        lemma_run_end_is_maximal(src, pos + 1, Run::Digits);
        if peek_at(src, whole_end) == '.' && digit(peek_at(src, whole_end + 1)) {
            lemma_run_end_is_maximal(src, whole_end + 1, Run::Digits);
        }
    }
    if alpha(c) {
        lemma_run_end_is_maximal(src, pos + 1, Run::Word);
    }
}

/// The scan of the text from `pos` on, with `line` the current line.
pub open spec fn scan_from(src: Seq<char>, pos: int, line: nat) -> Scan
    decreases src.len() - pos,
{
    if 0 <= pos < src.len() {
        let step = lex_step(src, pos, line);
        proof {
            lemma_step_advances(src, pos, line);
        }
        let rest = scan_from(src, step.next, step.line);
        Scan {
            tokens: optional(step.token) + rest.tokens,
            errors: optional(step.error) + rest.errors,
        }
    } else {
        Scan { tokens: seq![end_marker(line)], errors: Seq::empty() }
    }
}

/// The scan of a whole text: from its first character, on line 1.
pub open spec fn scan(src: Seq<char>) -> Scan {
    scan_from(src, 0, 1)
}

} // verus!
