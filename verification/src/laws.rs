//! General properties of the scan, proved of the model in [`crate::grammar`].

use vstd::prelude::*;
use crate::error::{ScanErrorKind, ScanErrorView};
use crate::grammar::{
    blank, comment_end, digit_values, end_marker, lemma_comment_end_bounds, lemma_newlines_split,
    lemma_newlines_step, lemma_no_newlines, lemma_run_end_is_maximal, lemma_step_advances,
    lex_step, newlines, number_end, number_value, operator, optional, peek_at, punctuation,
    run_end, scan, scan_from, Run, Step,
};
use crate::helpers::{alpha, alpha_numeric, digit, keyword};
use crate::token::{digits_value, lemma_digits_value_concat, pow10, LiteralView, TokenView};
use crate::token_type::TokenType;

verus! {

/// A text of blanks alone (spaces, tabs, carriage returns), the empty text
/// among them, scans to the end-marker on line 1 and to no error.
pub proof fn law_blank_text(src: Seq<char>)
    requires
        forall|i: int| 0 <= i < src.len() ==> blank(#[trigger] src[i]),
    ensures
        scan(src).tokens == seq![end_marker(1)],
        scan(src).errors == Seq::<ScanErrorView>::empty(),
{
    lemma_blanks_skipped(src, 0, 1);
}

proof fn lemma_blanks_skipped(src: Seq<char>, pos: int, line: nat)
    requires
        0 <= pos <= src.len(),
        forall|i: int| pos <= i < src.len() ==> blank(#[trigger] src[i]),
    ensures
        scan_from(src, pos, line).tokens == seq![end_marker(line)],
        scan_from(src, pos, line).errors == Seq::<ScanErrorView>::empty(),
    decreases src.len() - pos,
{
    if pos < src.len() {
        assert(blank(src[pos]));
        lemma_blanks_skipped(src, pos + 1, line);
        let rest = scan_from(src, pos + 1, line);
        assert(scan_from(src, pos, line).tokens =~= rest.tokens);
        assert(scan_from(src, pos, line).errors =~= rest.errors);
    }
}

/// Newlines produce nothing: the scan from the start of a run of newlines is
/// the scan from its end, with the line counter raised by the length of the
/// run.
pub proof fn law_newlines_skipped(src: Seq<char>, from: int, to: int, line: nat)
    requires
        0 <= from <= to <= src.len(),
        forall|i: int| from <= i < to ==> #[trigger] src[i] == '\n',
    ensures
        scan_from(src, from, line).tokens == scan_from(src, to, (line + to - from) as nat).tokens,
        scan_from(src, from, line).errors == scan_from(src, to, (line + to - from) as nat).errors,
    decreases to - from,
{
    if from < to {
        assert(src[from] == '\n');
        law_newlines_skipped(src, from + 1, to, line + 1);
        let rest = scan_from(src, from + 1, line + 1);
        assert(scan_from(src, from, line).tokens =~= rest.tokens);
        assert(scan_from(src, from, line).errors =~= rest.errors);
    }
}

/// A token that directly follows `n` newlines at the start of a text is the
/// first token of the scan. It is on line `n + 1`, but for a string literal,
/// which is on the line of its closing quote.
pub proof fn law_token_after_newlines(src: Seq<char>, n: int)
    requires
        0 <= n < src.len(),
        forall|i: int| 0 <= i < n ==> #[trigger] src[i] == '\n',
        lex_step(src, n, (n + 1) as nat).token is Some,
    ensures
        scan(src).tokens[0] == lex_step(src, n, (n + 1) as nat).token->0,
        scan(src).tokens[0].token_type != TokenType::String ==> scan(src).tokens[0].line == n + 1,
        scan(src).tokens[0].token_type == TokenType::String ==> scan(src).tokens[0].line == n + 1
            + newlines(src, n + 1, run_end(src, n + 1, Run::Text)),
{
    law_newlines_skipped(src, 0, n, 1);
}

/// A line comment produces nothing and runs up to the next newline or the end
/// of the text. Where a newline ends it, the scan goes on after that newline,
/// one line further down.
pub proof fn law_line_comment(src: Seq<char>, pos: int, line: nat)
    requires
        0 <= pos,
        pos + 1 < src.len(),
        src[pos] == '/',
        src[pos + 1] == '/',
    ensures
        ({
            let end = run_end(src, pos + 2, Run::Line);
            &&& pos + 2 <= end <= src.len()
            &&& forall|i: int| pos + 2 <= i < end ==> #[trigger] src[i] != '\n'
            &&& end < src.len() ==> {
                &&& src[end] == '\n'
                &&& scan_from(src, pos, line).tokens == scan_from(src, end + 1, line + 1).tokens
                &&& scan_from(src, pos, line).errors == scan_from(src, end + 1, line + 1).errors
            }
            &&& end == src.len() ==> {
                &&& scan_from(src, pos, line).tokens == seq![end_marker(line)]
                &&& scan_from(src, pos, line).errors == Seq::<ScanErrorView>::empty()
            }
        }),
{
    let end = run_end(src, pos + 2, Run::Line);
    lemma_run_end_is_maximal(src, pos + 2, Run::Line);
    let after = scan_from(src, end, line);
    assert(scan_from(src, pos, line).tokens =~= after.tokens);
    assert(scan_from(src, pos, line).errors =~= after.errors);
    if end < src.len() {
        let rest = scan_from(src, end + 1, line + 1);
        assert(after.tokens =~= rest.tokens);
        assert(after.errors =~= rest.errors);
    }
}

/// A string literal that is not closed reports one error, on the line on
/// which the text ends, and the scan ends there with the end-marker.
pub proof fn law_unterminated_string(src: Seq<char>, pos: int, line: nat)
    requires
        0 <= pos < src.len(),
        src[pos] == '"',
        forall|i: int| pos < i < src.len() ==> #[trigger] src[i] != '"',
    ensures
        ({
            let last_line = line + newlines(src, pos + 1, src.len() as int);
            &&& scan_from(src, pos, line).tokens == seq![end_marker(last_line)]
            &&& scan_from(src, pos, line).errors == seq![
                ScanErrorView { kind: ScanErrorKind::UnterminatedString, line: last_line },
            ]
        }),
{
    lemma_run_end_is_maximal(src, pos + 1, Run::Text);
    let close = run_end(src, pos + 1, Run::Text);
    if close < src.len() {
        assert(src[close] != '"');
    }
    let last_line = line + newlines(src, pos + 1, src.len() as int);
    let rest = scan_from(src, src.len() as int, last_line);
    assert(scan_from(src, pos, line).tokens =~= rest.tokens);
    assert(scan_from(src, pos, line).errors =~= seq![
        ScanErrorView { kind: ScanErrorKind::UnterminatedString, line: last_line },
    ] + rest.errors);
}

/// A block comment that is not closed reports one error, on the line on
/// which the text ends, and the scan ends there with the end-marker.
pub proof fn law_unterminated_block_comment(src: Seq<char>, pos: int, line: nat)
    requires
        0 <= pos,
        pos + 1 < src.len(),
        src[pos] == '/',
        src[pos + 1] == '*',
        !comment_end(src, pos + 2, 1).closed,
    ensures
        ({
            let last_line = line + newlines(src, pos + 2, src.len() as int);
            &&& scan_from(src, pos, line).tokens == seq![end_marker(last_line)]
            &&& scan_from(src, pos, line).errors == seq![
                ScanErrorView { kind: ScanErrorKind::UnterminatedBlockComment, line: last_line },
            ]
        }),
{
    lemma_comment_end_bounds(src, pos + 2, 1);
    let last_line = line + newlines(src, pos + 2, src.len() as int);
    let rest = scan_from(src, src.len() as int, last_line);
    assert(scan_from(src, pos, line).tokens =~= rest.tokens);
    assert(scan_from(src, pos, line).errors =~= seq![
        ScanErrorView { kind: ScanErrorKind::UnterminatedBlockComment, line: last_line },
    ] + rest.errors);
}

/// The token kind of each of the eleven single-character punctuation marks.
pub open spec fn mark(c: char) -> Option<TokenType> {
    if c == '/' {
        Some(TokenType::Slash)
    } else {
        punctuation(c)
    }
}

/// A token without a literal, on line 1.
pub open spec fn plain(kind: TokenType, lexeme: Seq<char>) -> TokenView {
    TokenView { token_type: kind, lexeme, literal: None, line: 1 }
}

/// Each punctuation mark, scanned alone, gives one token of its kind, and no
/// two marks share a kind.
pub proof fn law_punctuation(c: char, d: char)
    requires
        mark(c) is Some,
    ensures
        scan(seq![c]).tokens == seq![plain(mark(c)->0, seq![c]), end_marker(1)],
        scan(seq![c]).errors == Seq::<ScanErrorView>::empty(),
        mark(d) == mark(c) ==> d == c,
{
    let src = seq![c];
    let rest = scan_from(src, 1, 1);
    let step = lex_step(src, 0, 1);
    assert(src.subrange(0, 1) =~= src);
    assert(step.token == Some(plain(mark(c)->0, src)));
    assert(scan(src).tokens =~= optional(step.token) + rest.tokens);
    assert(scan(src).errors =~= optional(step.error) + rest.errors);
    assert(scan(src).tokens =~= seq![plain(mark(c)->0, seq![c]), end_marker(1)]);
    assert(scan(src).errors =~= Seq::<ScanErrorView>::empty());
}

/// Each of `!`, `=`, `<` and `>` gives its one-character token when scanned
/// alone, and its two-character token, and that token only, when directly
/// followed by `=`.
pub proof fn law_operators(c: char)
    requires
        operator(c, false) is Some,
    ensures
        scan(seq![c]).tokens == seq![plain(operator(c, false)->0, seq![c]), end_marker(1)],
        scan(seq![c]).errors == Seq::<ScanErrorView>::empty(),
        scan(seq![c, '=']).tokens == seq![
            plain(operator(c, true)->0, seq![c, '=']),
            end_marker(1),
        ],
        scan(seq![c, '=']).errors == Seq::<ScanErrorView>::empty(),
        operator(c, false) != operator(c, true),
{
    let one = seq![c];
    let step = lex_step(one, 0, 1);
    let rest = scan_from(one, 1, 1);
    assert(one.subrange(0, 1) =~= one);
    assert(step.token == Some(plain(operator(c, false)->0, one)));
    assert(scan(one).tokens =~= optional(step.token) + rest.tokens);
    assert(scan(one).errors =~= optional(step.error) + rest.errors);
    assert(scan(one).tokens =~= seq![plain(operator(c, false)->0, seq![c]), end_marker(1)]);
    assert(scan(one).errors =~= Seq::<ScanErrorView>::empty());

    let two = seq![c, '='];
    let step = lex_step(two, 0, 1);
    let rest = scan_from(two, 2, 1);
    assert(two.subrange(0, 2) =~= two);
    assert(step.token == Some(plain(operator(c, true)->0, two)));
    assert(scan(two).tokens =~= optional(step.token) + rest.tokens);
    assert(scan(two).errors =~= optional(step.error) + rest.errors);
    assert(scan(two).tokens =~= seq![plain(operator(c, true)->0, seq![c, '=']), end_marker(1)]);
    assert(scan(two).errors =~= Seq::<ScanErrorView>::empty());
}

/// The shape of a number literal: a run of digits, and then, only where a
/// point is directly followed by a digit, that point and a second run of
/// digits. It ends in a digit, and it is maximal.
pub proof fn law_number_shape(src: Seq<char>, pos: int)
    requires
        0 <= pos < src.len(),
        digit(src[pos]),
    ensures
        ({
            let whole_end = run_end(src, pos, Run::Digits);
            let end = number_end(src, pos);
            &&& pos < whole_end <= end <= src.len()
            &&& forall|i: int| pos <= i < whole_end ==> digit(#[trigger] src[i])
            &&& whole_end < end ==> {
                &&& src[whole_end] == '.'
                &&& whole_end + 2 <= end
                &&& forall|i: int| whole_end < i < end ==> digit(#[trigger] src[i])
            }
            &&& whole_end == end ==> !(peek_at(src, end) == '.' && digit(peek_at(src, end + 1)))
            &&& digit(src[end - 1])
            &&& !digit(peek_at(src, end))
        }),
{
    let whole_end = run_end(src, pos, Run::Digits);
    lemma_run_end_is_maximal(src, pos, Run::Digits);
    lemma_run_end_is_maximal(src, pos + 1, Run::Digits);
    if peek_at(src, whole_end) == '.' && digit(peek_at(src, whole_end + 1)) {
        lemma_run_end_is_maximal(src, whole_end + 1, Run::Digits);
        lemma_run_end_is_maximal(src, whole_end + 2, Run::Digits);
    }
}

/// Maximal munch for words: an identifier or keyword token takes the whole
/// run of letters, digits and underscores, and it is a keyword only where
/// that whole run spells one.
pub proof fn law_word_is_maximal(src: Seq<char>, pos: int, line: nat)
    requires
        0 <= pos < src.len(),
        alpha(src[pos]),
    ensures
        ({
            let step = lex_step(src, pos, line);
            let word = src.subrange(pos, step.next);
            &&& pos < step.next <= src.len()
            &&& forall|i: int| pos <= i < step.next ==> alpha_numeric(#[trigger] src[i])
            &&& !alpha_numeric(peek_at(src, step.next))
            &&& step.error is None
            &&& step.line == line
            &&& step.token == Some(
                TokenView {
                    token_type: if keyword(word) is Some {
                        keyword(word)->0
                    } else {
                        TokenType::Identifier
                    },
                    lexeme: word,
                    literal: None,
                    line,
                },
            )
        }),
{
    lemma_run_end_is_maximal(src, pos, Run::Word);
    lemma_run_end_is_maximal(src, pos + 1, Run::Word);
}

/// The keyword table gives a kind of its own to each of the sixteen reserved
/// words, and that kind is never `Identifier`.
pub proof fn law_keywords_distinct(a: Seq<char>, b: Seq<char>)
    requires
        keyword(a) is Some,
        keyword(a) == keyword(b),
    ensures
        a == b,
        keyword(a) != Some(TokenType::Identifier),
{
}

/// The sixteen reserved words and their kinds.
pub proof fn law_keyword_table()
    ensures
        keyword("and"@) == Some(TokenType::And),
        keyword("class"@) == Some(TokenType::Class),
        keyword("else"@) == Some(TokenType::Else),
        keyword("false"@) == Some(TokenType::False),
        keyword("for"@) == Some(TokenType::For),
        keyword("fun"@) == Some(TokenType::Fun),
        keyword("if"@) == Some(TokenType::If),
        keyword("nil"@) == Some(TokenType::Nil),
        keyword("or"@) == Some(TokenType::Or),
        keyword("print"@) == Some(TokenType::Print),
        keyword("return"@) == Some(TokenType::Return),
        keyword("super"@) == Some(TokenType::Super),
        keyword("this"@) == Some(TokenType::This),
        keyword("true"@) == Some(TokenType::True),
        keyword("var"@) == Some(TokenType::Var),
        keyword("while"@) == Some(TokenType::While),
{
    reveal_strlit("and");
    reveal_strlit("class");
    reveal_strlit("else");
    reveal_strlit("false");
    reveal_strlit("for");
    reveal_strlit("fun");
    reveal_strlit("if");
    reveal_strlit("nil");
    reveal_strlit("or");
    reveal_strlit("print");
    reveal_strlit("return");
    reveal_strlit("super");
    reveal_strlit("this");
    reveal_strlit("true");
    reveal_strlit("var");
    reveal_strlit("while");
    assert("and"@.len() == 3 && "and"@[0] == 'a' && "and"@[1] == 'n');
    assert("class"@.len() == 5 && "class"@[0] == 'c' && "class"@[1] == 'l');
    assert("else"@.len() == 4 && "else"@[0] == 'e' && "else"@[1] == 'l');
    assert("false"@.len() == 5 && "false"@[0] == 'f' && "false"@[1] == 'a');
    assert("for"@.len() == 3 && "for"@[0] == 'f' && "for"@[1] == 'o');
    assert("fun"@.len() == 3 && "fun"@[0] == 'f' && "fun"@[1] == 'u');
    assert("if"@.len() == 2 && "if"@[0] == 'i' && "if"@[1] == 'f');
    assert("nil"@.len() == 3 && "nil"@[0] == 'n' && "nil"@[1] == 'i');
    assert("or"@.len() == 2 && "or"@[0] == 'o' && "or"@[1] == 'r');
    assert("print"@.len() == 5 && "print"@[0] == 'p' && "print"@[1] == 'r');
    assert("return"@.len() == 6 && "return"@[0] == 'r' && "return"@[1] == 'e');
    assert("super"@.len() == 5 && "super"@[0] == 's' && "super"@[1] == 'u');
    assert("this"@.len() == 4 && "this"@[0] == 't' && "this"@[1] == 'h');
    assert("true"@.len() == 4 && "true"@[0] == 't' && "true"@[1] == 'r');
    assert("var"@.len() == 3 && "var"@[0] == 'v' && "var"@[1] == 'a');
    assert("while"@.len() == 5 && "while"@[0] == 'w' && "while"@[1] == 'h');
}

/// The line counter counts newlines: a dispatch raises it by the number of
/// newlines among the characters that it consumes.
pub proof fn law_step_counts_newlines(src: Seq<char>, pos: int, line: nat)
    requires
        0 <= pos < src.len(),
    ensures
        lex_step(src, pos, line).line == line + newlines(
            src,
            pos,
            lex_step(src, pos, line).next,
        ),
{
    let c = src[pos];
    let step = lex_step(src, pos, line);
    lemma_step_advances(src, pos, line);
    lemma_newlines_split(src, pos, pos + 1, step.next);
    lemma_no_newlines(src, pos, pos);
    if c == '\n' {
        assert(newlines(src, pos, pos + 1) == 1);
    } else if c == '"' {
        let close = run_end(src, pos + 1, Run::Text);
        lemma_run_end_is_maximal(src, pos + 1, Run::Text);
        if close < src.len() {
            lemma_newlines_step(src, pos + 1, close);
        }
    } else if c == '/' && peek_at(src, pos + 1) == '*' {
        lemma_comment_end_bounds(src, pos + 2, 1);
        lemma_newlines_split(src, pos + 1, pos + 2, step.next);
        lemma_no_newlines(src, pos + 1, pos + 2);
    } else if c == '/' && peek_at(src, pos + 1) == '/' {
        lemma_run_end_is_maximal(src, pos + 2, Run::Line);
        lemma_no_newlines(src, pos + 1, step.next);
    } else if digit(c) {
        law_number_shape(src, pos);
        lemma_no_newlines(src, pos + 1, step.next);
    } else if alpha(c) {
        lemma_run_end_is_maximal(src, pos, Run::Word);
        lemma_no_newlines(src, pos + 1, step.next);
    } else {
        lemma_no_newlines(src, pos + 1, step.next);
    }
}

/// `text` is a contiguous part of `src`.
pub open spec fn is_substring(text: Seq<char>, src: Seq<char>) -> bool {
    exists|from: int, to: int| 0 <= from <= to <= src.len() && text == #[trigger] src.subrange(
        from,
        to,
    )
}

/// The literal of a token goes with its kind: a string token holds a text, a
/// number token a well-formed number, and any other token no literal.
pub open spec fn literal_matches_kind(token: TokenView) -> bool {
    match token.token_type {
        TokenType::String => token.literal matches Some(LiteralView::String(_)),
        TokenType::Number => token.literal matches Some(LiteralView::Number(value))
            && value.wf(),
        _ => token.literal is None,
    }
}

/// The token of a dispatch, if it produces one, is never the end-marker; its
/// lexeme is exactly the text that the dispatch consumed and never empty, its
/// line is the line that is current after the dispatch, and its literal goes
/// with its kind.
pub proof fn law_step_token(src: Seq<char>, pos: int, line: nat)
    requires
        0 <= pos < src.len(),
        lex_step(src, pos, line).token is Some,
    ensures
        ({
            let step = lex_step(src, pos, line);
            let token = step.token->0;
            &&& pos < step.next <= src.len()
            &&& token.lexeme == src.subrange(pos, step.next)
            &&& is_substring(token.lexeme, src)
            &&& token.line == step.line
            &&& token.token_type != TokenType::Eof
            &&& literal_matches_kind(token)
            &&& step.error is None
        }),
{
    let c = src[pos];
    lemma_step_advances(src, pos, line);
    if digit(c) {
        law_number_shape(src, pos);
        let whole_end = run_end(src, pos, Run::Digits);
        let end = number_end(src, pos);
        let value = number_value(src, pos, whole_end, end);
        assert forall|i: int| 0 <= i < value.digits.len() implies #[trigger] value.digits[i]
            <= 9 by {
            if i < whole_end - pos {
                assert(digit(src[pos + i]));
            } else {
                assert(digit(src[i + pos + 1]));
            }
        }
    }
}

/// The token sequence `tokens` of a scan of `src` is well formed: it is not
/// empty and its last element is the end-marker; every element before that
/// is no end-marker, has a contiguous part of the source as its lexeme and a
/// literal that goes with its kind; and line numbers never decrease.
pub open spec fn tokens_well_formed(src: Seq<char>, tokens: Seq<TokenView>) -> bool {
    &&& tokens.len() >= 1
    &&& tokens.last() == end_marker(tokens.last().line)
    &&& forall|i: int|
        0 <= i < tokens.len() - 1 ==> {
            &&& (#[trigger] tokens[i]).token_type != TokenType::Eof
            &&& is_substring(tokens[i].lexeme, src)
            &&& literal_matches_kind(tokens[i])
        }
    &&& forall|i: int, j: int|
        0 <= i <= j < tokens.len() ==> (#[trigger] tokens[i]).line <= (#[trigger] tokens[j]).line
}

/// Every scan gives a well-formed token sequence, whose end-marker is on the
/// line on which the text ends: one more than the number of newlines in it.
pub proof fn law_scan_well_formed(src: Seq<char>)
    ensures
        tokens_well_formed(src, scan(src).tokens),
        scan(src).tokens.last() == end_marker(1 + newlines(src, 0, src.len() as int)),
{
    lemma_scan_from_well_formed(src, 0, 1);
}

proof fn lemma_scan_from_well_formed(src: Seq<char>, pos: int, line: nat)
    requires
        0 <= pos <= src.len(),
    ensures
        tokens_well_formed(src, scan_from(src, pos, line).tokens),
        scan_from(src, pos, line).tokens.last() == end_marker(
            line + newlines(src, pos, src.len() as int),
        ),
        forall|i: int|
            0 <= i < scan_from(src, pos, line).tokens.len() ==> line <= (#[trigger] scan_from(
                src,
                pos,
                line,
            ).tokens[i]).line,
    decreases src.len() - pos,
{
    let tokens = scan_from(src, pos, line).tokens;
    if pos < src.len() {
        let step = lex_step(src, pos, line);
        lemma_step_advances(src, pos, line);
        law_step_counts_newlines(src, pos, line);
        lemma_newlines_split(src, pos, step.next, src.len() as int);
        lemma_scan_from_well_formed(src, step.next, step.line);
        let rest = scan_from(src, step.next, step.line).tokens;
        if step.token is Some {
            law_step_token(src, pos, line);
            assert(tokens =~= seq![step.token->0] + rest);
            assert(tokens[0] == step.token->0);
            assert forall|i: int| 1 <= i < tokens.len() implies tokens[i] == rest[i - 1] by {}
            assert(tokens.last() == rest.last());
        } else {
            assert(tokens =~= rest);
        }
    } else {
        lemma_no_newlines(src, pos, pos);
        assert(tokens =~= seq![end_marker(line)]);
    }
}

/// The error of a dispatch, if it reports one, comes without a token, is on
/// the line that is current after the dispatch, and is never an invalid
/// number literal.
pub proof fn law_step_error(src: Seq<char>, pos: int, line: nat)
    requires
        0 <= pos < src.len(),
        lex_step(src, pos, line).error is Some,
    ensures
        ({
            let step = lex_step(src, pos, line);
            &&& step.token is None
            &&& step.error->0.line == step.line
            &&& step.error->0.kind != ScanErrorKind::InvalidNumberLiteral
        }),
{
}

/// The errors `errors` of a scan are well formed: none is an invalid number
/// literal, and line numbers never decrease.
pub open spec fn errors_well_formed(errors: Seq<ScanErrorView>) -> bool {
    &&& forall|i: int|
        0 <= i < errors.len() ==> (#[trigger] errors[i]).kind
            != ScanErrorKind::InvalidNumberLiteral
    &&& forall|i: int, j: int|
        0 <= i <= j < errors.len() ==> (#[trigger] errors[i]).line <= (#[trigger] errors[j]).line
}

/// Every scan gives a well-formed sequence of errors: the grammar of number
/// literals lets no invalid one through.
pub proof fn law_scan_errors_well_formed(src: Seq<char>)
    ensures
        errors_well_formed(scan(src).errors),
{
    lemma_scan_from_errors(src, 0, 1);
}

proof fn lemma_scan_from_errors(src: Seq<char>, pos: int, line: nat)
    requires
        0 <= pos <= src.len(),
    ensures
        errors_well_formed(scan_from(src, pos, line).errors),
        forall|i: int|
            0 <= i < scan_from(src, pos, line).errors.len() ==> line <= (#[trigger] scan_from(
                src,
                pos,
                line,
            ).errors[i]).line,
    decreases src.len() - pos,
{
    let errors = scan_from(src, pos, line).errors;
    if pos < src.len() {
        let step = lex_step(src, pos, line);
        lemma_step_advances(src, pos, line);
        law_step_counts_newlines(src, pos, line);
        lemma_scan_from_errors(src, step.next, step.line);
        let rest = scan_from(src, step.next, step.line).errors;
        if step.error is Some {
            law_step_error(src, pos, line);
            assert(errors =~= seq![step.error->0] + rest);
            assert(errors[0] == step.error->0);
            assert forall|i: int| 1 <= i < errors.len() implies errors[i] == rest[i - 1] by {}
        } else {
            assert(errors =~= rest);
        }
    } else {
        assert(errors =~= Seq::<ScanErrorView>::empty());
    }
}

/// A closed string literal gives one string token: its lexeme runs from the
/// opening quote to the closing quote, its literal is the text strictly
/// between them, newlines included, and its line is the line of the closing
/// quote.
pub proof fn law_string_literal(src: Seq<char>, pos: int, close: int, line: nat)
    requires
        0 <= pos < close < src.len(),
        src[pos] == '"',
        src[close] == '"',
        forall|i: int| pos < i < close ==> #[trigger] src[i] != '"',
    ensures
        ({
            let last_line = line + newlines(src, pos + 1, close);
            lex_step(src, pos, line) == Step {
                next: close + 1,
                line: last_line,
                token: Some(
                    TokenView {
                        token_type: TokenType::String,
                        lexeme: src.subrange(pos, close + 1),
                        literal: Some(LiteralView::String(src.subrange(pos + 1, close))),
                        line: last_line,
                    },
                ),
                error: None,
            }
        }),
{
    lemma_run_end_is_maximal(src, pos + 1, Run::Text);
    let end = run_end(src, pos + 1, Run::Text);
    if end < close {
        assert(src[end] != '"');
    }
    if end > close {
        assert(src[close] != '"');
    }
}

/// Nested block comments close one level at a time: with `inner + outer`
/// levels open, the comment goes on, where the `inner` levels are closed,
/// as one with `outer` levels open; and where the text ends before that, no
/// level is closed.
pub proof fn law_comment_nesting(src: Seq<char>, pos: int, inner: nat, outer: nat)
    requires
        0 <= pos <= src.len(),
    ensures
        comment_end(src, pos, inner + outer) == if comment_end(src, pos, inner).closed {
            comment_end(src, comment_end(src, pos, inner).end, outer)
        } else {
            comment_end(src, pos, inner)
        },
    decreases src.len() - pos,
{
    if inner == 0 {
    } else if pos >= src.len() {
    } else if peek_at(src, pos) == '/' && peek_at(src, pos + 1) == '*' {
        law_comment_nesting(src, pos + 2, inner + 1, outer);
    } else if peek_at(src, pos) == '*' && peek_at(src, pos + 1) == '/' {
        law_comment_nesting(src, pos + 2, (inner - 1) as nat, outer);
    } else {
        law_comment_nesting(src, pos + 1, inner, outer);
    }
}

/// The value of a number literal: its digits before the point as a whole
/// number, and its digits after the point as so many decimal places.
pub proof fn law_number_value(src: Seq<char>, pos: int)
    requires
        0 <= pos < src.len(),
        digit(src[pos]),
    ensures
        ({
            let whole_end = run_end(src, pos, Run::Digits);
            let end = number_end(src, pos);
            let value = number_value(src, pos, whole_end, end);
            let whole = digits_value(digit_values(src.subrange(pos, whole_end)));
            &&& whole_end == end ==> value.scale == 0 && value.mantissa() == whole
            &&& whole_end < end ==> {
                &&& value.scale == end - whole_end - 1
                &&& value.mantissa() == whole * pow10(value.scale) + digits_value(
                    digit_values(src.subrange(whole_end + 1, end)),
                )
            }
        }),
{
    let whole_end = run_end(src, pos, Run::Digits);
    let end = number_end(src, pos);
    law_number_shape(src, pos);
    if whole_end < end {
        lemma_digits_value_concat(
            digit_values(src.subrange(pos, whole_end)),
            digit_values(src.subrange(whole_end + 1, end)),
        );
    }
}

} // verus!
