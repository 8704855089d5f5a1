//! The scanner: a single pass over the source text that produces its tokens.

use vstd::prelude::*;
use vstd::utf8::encode_utf8;
use crate::error::{error_views, ScanError, ScanErrorKind, ScanErrorView};
use crate::grammar::{
    comment_end, digit_value, digit_values, lemma_newlines_step, lemma_step_advances, lex_step,
    newlines, optional, peek_at, plain_token, run_end, scan, scan_from, skip_to, Run, Step,
};
use crate::helpers::{alpha, digit, is_alpha, is_alpha_numeric, is_digit, keyword_type};
use crate::laws::{
    errors_well_formed, law_scan_errors_well_formed, law_scan_well_formed, tokens_well_formed,
};
use crate::text::{
    byte_offset, char_after, char_at, lemma_byte_offset_ends, lemma_byte_offset_monotone,
    lemma_byte_offset_step, substring, utf8_width,
};
use crate::token::{literal_view, token_views, Decimal, Literal, Token, TokenView};
use crate::token_type::TokenType;

verus! {

/// A cursor over a source text, with the tokens and errors gathered so far.
pub struct Scanner<'a> {
    source: &'a str,
    tokens: Vec<Token>,
    errors: Vec<ScanError>,
    /// Byte offset of the first character of the lexeme being recognized.
    start: usize,
    /// Byte offset of the next character to consume.
    current: usize,
    /// Byte length of the source.
    end: usize,
    line: usize,
    /// Character index that `start` stands for.
    start_pos: Ghost<int>,
    /// Character index that `current` stands for.
    pos: Ghost<int>,
}

/// The tokens and the errors of one pass over a source text.
#[derive(Debug, Clone, PartialEq)]
pub struct ScanOutput {
    pub tokens: Vec<Token>,
    pub errors: Vec<ScanError>,
}

impl<'a> Scanner<'a> {
    /// The source text, as its sequence of characters.
    pub closed spec fn text(&self) -> Seq<char> {
        self.source@
    }

    /// The two byte offsets stand for character indices within the text.
    spec fn cursor_wf(&self) -> bool {
        &&& self.source@.len() < usize::MAX
        &&& 0 <= self.start_pos@ <= self.pos@ <= self.source@.len()
        &&& self.start == byte_offset(self.source@, self.start_pos@)
        &&& self.current == byte_offset(self.source@, self.pos@)
        &&& self.end == byte_offset(self.source@, self.source@.len() as int)
    }

    /// The cursor is well formed and the line counter is in step with it.
    spec fn inv(&self) -> bool {
        &&& self.cursor_wf()
        &&& 1 <= self.line <= self.pos@ + 1
    }

    /// The scanner stands at the start of its text and has produced nothing.
    pub closed spec fn ready(&self) -> bool {
        &&& self.inv()
        &&& self.pos@ == 0
        &&& self.line == 1
        &&& self.tokens@.len() == 0
        &&& self.errors@.len() == 0
    }

    /// Only the cursor differs between `before` and `self`.
    spec fn moved_from(&self, before: &Self) -> bool {
        &&& self.continues_from(before)
        &&& self.line == before.line
    }

    /// The same scan as `before`, on the same lexeme: only the cursor and the
    /// line counter may differ.
    spec fn continues_from(&self, before: &Self) -> bool {
        &&& self.source == before.source
        &&& self.end == before.end
        &&& self.tokens == before.tokens
        &&& self.errors == before.errors
        &&& self.start == before.start
        &&& self.start_pos == before.start_pos
    }

    /// `self` is what `before` becomes by the given dispatch step.
    spec fn stepped_from(&self, before: &Self, step: Step) -> bool {
        &&& self.inv()
        &&& self.source == before.source
        &&& self.pos@ == step.next
        &&& self.line == step.line
        &&& token_views(self.tokens@) == token_views(before.tokens@) + optional(step.token)
        &&& error_views(self.errors@) == error_views(before.errors@) + optional(step.error)
    }

    /// A scanner at the start of `source`.
    ///
    /// The line counter is a `usize` and must be able to count every
    /// character of the text and one more.
    pub fn new(source: &'a str) -> (scanner: Self)
        requires
            source@.len() < usize::MAX,
        ensures
            scanner.ready(),
            scanner.text() == source@,
    {
        proof {
            lemma_byte_offset_ends(source@);
        }
        Self {
            source,
            tokens: Vec::new(),
            errors: Vec::new(),
            start: 0,
            current: 0,
            end: source.as_bytes().len(),
            line: 1,
            start_pos: Ghost(0),
            pos: Ghost(0),
        }
    }

    /// A scanner at the start of `source`, for any text: `None` exactly where
    /// the encoding of `source` takes `usize::MAX` bytes, too many for the
    /// line counter.
    pub fn try_new(source: &'a str) -> (scanner: Option<Self>)
        ensures
            scanner is Some <==> encode_utf8(source@).len() < usize::MAX,
            scanner matches Some(s) ==> s.ready() && s.text() == source@,
    {
        if source.as_bytes().len() < usize::MAX {
            proof {
                lemma_byte_offset_ends(source@);
                lemma_byte_offset_monotone(source@, 0, source@.len() as int);
            }
            Some(Self::new(source))
        } else {
            None
        }
    }

    /// Tells whether every character has been consumed.
    fn is_at_end(&self) -> (b: bool)
        requires
            self.cursor_wf(),
        ensures
            b == (self.pos@ == self.source@.len()),
    {
        proof {
            lemma_byte_offset_monotone(
                self.source@,
                self.pos@,
                self.source@.len() as int,
            );
        }
        self.current >= self.end
    }

    /// Consumes the next character and returns it.
    fn advance(&mut self) -> (c: char)
        requires
            old(self).cursor_wf(),
            old(self).pos@ < old(self).source@.len(),
        ensures
            c == old(self).source@[old(self).pos@],
            final(self).cursor_wf(),
            final(self).moved_from(old(self)),
            final(self).pos@ == old(self).pos@ + 1,
    {
        let c = match char_at(self.source, self.current, Ghost(self.pos@)) {
            Some(c) => c,
            None => '\0',
        };
        proof {
            lemma_byte_offset_step(self.source@, self.pos@);
            lemma_byte_offset_monotone(
                self.source@,
                self.pos@ + 1,
                self.source@.len() as int,
            );
        }
        self.current += utf8_width(c);
        self.pos = Ghost(self.pos@ + 1);
        c
    }

    /// The next character, or the null character at the end of the text.
    fn peek(&self) -> (c: char)
        requires
            self.cursor_wf(),
        ensures
            c == peek_at(self.source@, self.pos@),
    {
        match char_at(self.source, self.current, Ghost(self.pos@)) {
            Some(c) => c,
            None => '\0',
        }
    }

    /// The character after the next one, or the null character where there
    /// is none.
    fn peek_next(&self) -> (c: char)
        requires
            self.cursor_wf(),
        ensures
            c == peek_at(self.source@, self.pos@ + 1),
    {
        match char_after(self.source, self.current, Ghost(self.pos@)) {
            Some(c) => c,
            None => '\0',
        }
    }

    /// Consumes the next character if it is `expected`, and tells whether it
    /// did.
    fn matches(&mut self, expected: char) -> (b: bool)
        requires
            old(self).inv(),
        ensures
            b == (old(self).pos@ < old(self).source@.len() && old(self).source@[old(self).pos@]
                == expected),
            final(self).inv(),
            final(self).moved_from(old(self)),
            final(self).pos@ == old(self).pos@ + if b { 1int } else { 0int },
    {
        if self.is_at_end() {
            return false;
        }
        if self.peek() != expected {
            return false;
        }
        self.advance();
        true
    }

    /// The text from the start of the current lexeme up to the cursor.
    fn lexeme(&self) -> (text: String)
        requires
            self.cursor_wf(),
        ensures
            text@ == self.source@.subrange(self.start_pos@, self.pos@),
    {
        substring(self.source, self.start, self.current, Ghost(self.start_pos@), Ghost(self.pos@))
    }

    /// Emits a token of the given kind, without a literal, for the current
    /// lexeme.
    fn add_token(&mut self, token_type: TokenType)
        requires
            old(self).inv(),
        ensures
            final(self).stepped_from(
                old(self),
                plain_token(
                    old(self).source@,
                    old(self).start_pos@,
                    old(self).pos@,
                    token_type,
                    old(self).line as nat,
                ),
            ),
    {
        self.add_token_opt_literal(token_type, None);
    }

    /// Emits a token of the given kind, with a literal, for the current
    /// lexeme.
    fn add_token_literal(&mut self, token_type: TokenType, literal: Literal)
        requires
            old(self).inv(),
        ensures
            final(self).stepped_from(
                old(self),
                Step {
                    next: old(self).pos@,
                    line: old(self).line as nat,
                    token: Some(
                        TokenView {
                            token_type,
                            lexeme: old(self).source@.subrange(
                                old(self).start_pos@,
                                old(self).pos@,
                            ),
                            literal: Some(literal@),
                            line: old(self).line as nat,
                        },
                    ),
                    error: None,
                },
            ),
    {
        self.add_token_opt_literal(token_type, Some(literal));
    }

    /// Emits a token for the current lexeme, on the current line.
    fn add_token_opt_literal(&mut self, token_type: TokenType, literal: Option<Literal>)
        requires
            old(self).inv(),
        ensures
            final(self).stepped_from(
                old(self),
                Step {
                    next: old(self).pos@,
                    line: old(self).line as nat,
                    token: Some(
                        TokenView {
                            token_type,
                            lexeme: old(self).source@.subrange(
                                old(self).start_pos@,
                                old(self).pos@,
                            ),
                            literal: literal_view(literal),
                            line: old(self).line as nat,
                        },
                    ),
                    error: None,
                },
            ),
    {
        let text = self.lexeme();
        let ghost before = token_views(self.tokens@);
        let token = Token::new(token_type, text, literal, self.line);
        self.tokens.push(token);
        assert(token_views(self.tokens@) =~= before + seq![token@]);
        assert(error_views(self.errors@) =~= error_views(self.errors@) + Seq::empty());
    }

    /// Records an error of the given kind on the current line.
    fn error_at_line(&mut self, kind: ScanErrorKind)
        requires
            old(self).inv(),
        ensures
            final(self).stepped_from(
                old(self),
                Step {
                    next: old(self).pos@,
                    line: old(self).line as nat,
                    token: None,
                    error: Some(ScanErrorView { kind, line: old(self).line as nat }),
                },
            ),
    {
        let ghost before = error_views(self.errors@);
        let error = ScanError { kind, line: self.line };
        self.errors.push(error);
        assert(error_views(self.errors@) =~= before + seq![error@]);
        assert(token_views(self.tokens@) =~= token_views(self.tokens@) + Seq::empty());
    }

    /// A scanner that produced nothing since `before` has made a step without
    /// token and without error.
    proof fn lemma_silent_step(&self, before: &Self)
        requires
            self.inv(),
            self.continues_from(before),
        ensures
            self.stepped_from(
                before,
                Step { next: self.pos@, line: self.line as nat, token: None, error: None },
            ),
    {
        assert(token_views(self.tokens@) =~= token_views(before.tokens@) + optional::<TokenView>(
            None,
        ));
        assert(error_views(self.errors@) =~= error_views(before.errors@) + optional::<
            ScanErrorView,
        >(None));
    }

    /// Consumes the rest of a line comment, up to the newline that ends it.
    fn line_comment(&mut self)
        requires
            old(self).inv(),
        ensures
            final(self).stepped_from(
                old(self),
                skip_to(
                    run_end(old(self).source@, old(self).pos@, Run::Line),
                    old(self).line as nat,
                ),
            ),
    {
        let ghost before = *self;
        while self.peek() != '\n' && !self.is_at_end()
            invariant
                self.inv(),
                self.moved_from(&before),
                run_end(self.source@, self.pos@, Run::Line) == run_end(
                    before.source@,
                    before.pos@,
                    Run::Line,
                ),
            decreases self.source@.len() - self.pos@,
        {
            self.advance();
        }
        proof {
            self.lemma_silent_step(&before);
        }
    }

    /// Consumes a block comment whose opening pair has been consumed,
    /// comments nested in it included.
    fn block_comment(&mut self)
        requires
            old(self).inv(),
            old(self).pos@ >= 2,
        ensures
            final(self).stepped_from(
                old(self),
                ({
                    let comment = comment_end(old(self).source@, old(self).pos@, 1);
                    let last_line = old(self).line as nat + newlines(
                        old(self).source@,
                        old(self).pos@,
                        comment.end,
                    );
                    Step {
                        next: comment.end,
                        line: last_line,
                        token: None,
                        error: if comment.closed {
                            None
                        } else {
                            Some(
                                ScanErrorView {
                                    kind: ScanErrorKind::UnterminatedBlockComment,
                                    line: last_line,
                                },
                            )
                        },
                    }
                }),
            ),
    {
        let ghost before = *self;
        let mut depth: usize = 1;
        while depth > 0
            invariant
                before == *old(self),
                self.inv(),
                self.continues_from(&before),
                before.pos@ <= self.pos@,
                depth <= self.pos@,
                comment_end(self.source@, self.pos@, depth as nat) == comment_end(
                    before.source@,
                    before.pos@,
                    1,
                ),
                self.line == before.line + newlines(self.source@, before.pos@, self.pos@),
            decreases self.source@.len() - self.pos@,
        {
            if self.is_at_end() {
                let ghost silent = *self;
                proof {
                    self.lemma_silent_step(&before);
                }
                self.error_at_line(ScanErrorKind::UnterminatedBlockComment);
                return ;
            }
            let c = self.peek();
            proof {
                lemma_newlines_step(self.source@, before.pos@, self.pos@);
                lemma_newlines_step(self.source@, before.pos@, self.pos@ + 1);
            }
            if c == '\n' {
                self.line += 1;
                self.advance();
            } else if c == '/' && self.peek_next() == '*' {
                self.advance();
                self.advance();
                depth += 1;
            } else if c == '*' && self.peek_next() == '/' {
                self.advance();
                self.advance();
                depth -= 1;
            } else {
                self.advance();
            }
        }
        proof {
            self.lemma_silent_step(&before);
        }
    }

    /// Scans a string literal whose opening quote has been consumed.
    fn string(&mut self)
        requires
            old(self).inv(),
            old(self).pos@ == old(self).start_pos@ + 1,
            old(self).source@[old(self).start_pos@] == '"',
        ensures
            final(self).stepped_from(
                old(self),
                lex_step(old(self).source@, old(self).start_pos@, old(self).line as nat),
            ),
    {
        let ghost before = *self;
        while self.peek() != '"' && !self.is_at_end()
            invariant
                self.inv(),
                self.continues_from(&before),
                before.pos@ <= self.pos@,
                run_end(self.source@, self.pos@, Run::Text) == run_end(
                    before.source@,
                    before.pos@,
                    Run::Text,
                ),
                self.line == before.line + newlines(self.source@, before.pos@, self.pos@),
            decreases self.source@.len() - self.pos@,
        {
            proof {
                lemma_newlines_step(self.source@, before.pos@, self.pos@);
            }
            if self.peek() == '\n' {
                self.line += 1;
            }
            self.advance();
        }
        if self.is_at_end() {
            proof {
                self.lemma_silent_step(&before);
            }
            self.error_at_line(ScanErrorKind::UnterminatedString);
            return ;
        }
        self.advance();
        proof {
            lemma_byte_offset_step(self.source@, self.start_pos@);
            lemma_byte_offset_step(self.source@, self.pos@ - 1);
        }
        let value = substring(
            self.source,
            self.start + 1,
            self.current - 1,
            Ghost(self.start_pos@ + 1),
            Ghost(self.pos@ - 1),
        );
        self.add_token_literal(TokenType::String, Literal::String(value));
    }
    /// Scans an identifier or keyword whose first character has been
    /// consumed.
    fn identifier(&mut self)
        requires
            old(self).inv(),
            old(self).pos@ == old(self).start_pos@ + 1,
            alpha(old(self).source@[old(self).start_pos@]),
        ensures
            final(self).stepped_from(
                old(self),
                lex_step(old(self).source@, old(self).start_pos@, old(self).line as nat),
            ),
    {
        let ghost before = *self;
        while is_alpha_numeric(self.peek())
            invariant
                self.inv(),
                self.moved_from(&before),
                before.pos@ <= self.pos@,
                run_end(self.source@, self.pos@, Run::Word) == run_end(
                    before.source@,
                    before.start_pos@,
                    Run::Word,
                ),
            decreases self.source@.len() - self.pos@,
        {
            self.advance();
        }
        let text = self.lexeme();
        let token_type = match keyword_type(text.as_str()) {
            Some(kind) => kind,
            None => TokenType::Identifier,
        };
        self.add_token(token_type);
    }

    /// Scans a number literal whose first digit, `first`, has been consumed.
    fn number(&mut self, first: char)
        requires
            old(self).inv(),
            old(self).pos@ == old(self).start_pos@ + 1,
            first == old(self).source@[old(self).start_pos@],
            digit(first),
        ensures
            final(self).stepped_from(
                old(self),
                lex_step(old(self).source@, old(self).start_pos@, old(self).line as nat),
            ),
    {
        let ghost before = *self;
        let mut digits: Vec<u8> = Vec::new();
        digits.push(digit_of(first));
        assert(digits@ =~= digit_values(self.source@.subrange(self.start_pos@, self.pos@)));
        while is_digit(self.peek())
            invariant
                self.inv(),
                self.moved_from(&before),
                before.pos@ <= self.pos@,
                run_end(self.source@, self.pos@, Run::Digits) == run_end(
                    before.source@,
                    before.start_pos@,
                    Run::Digits,
                ),
                digits@ == digit_values(self.source@.subrange(self.start_pos@, self.pos@)),
            decreases self.source@.len() - self.pos@,
        {
            let c = self.advance();
            digits.push(digit_of(c));
            assert(digits@ =~= digit_values(self.source@.subrange(self.start_pos@, self.pos@)));
        }
        let ghost whole_end = self.pos@;
        let mut scale: usize = 0;
        if self.peek() == '.' && is_digit(self.peek_next()) {
            self.advance();
            assert(digits@ =~= digit_values(self.source@.subrange(self.start_pos@, whole_end))
                + digit_values(self.source@.subrange(whole_end + 1, self.pos@)));
            while is_digit(self.peek())
                invariant
                    self.inv(),
                    self.moved_from(&before),
                    0 <= self.start_pos@ < whole_end < self.pos@,
                    run_end(self.source@, self.pos@, Run::Digits) == run_end(
                        before.source@,
                        whole_end + 1,
                        Run::Digits,
                    ),
                    scale == self.pos@ - whole_end - 1,
                    digits@ == digit_values(self.source@.subrange(self.start_pos@, whole_end))
                        + digit_values(self.source@.subrange(whole_end + 1, self.pos@)),
                decreases self.source@.len() - self.pos@,
            {
                let c = self.advance();
                digits.push(digit_of(c));
                scale += 1;
                assert(digits@ =~= digit_values(self.source@.subrange(self.start_pos@, whole_end))
                    + digit_values(self.source@.subrange(whole_end + 1, self.pos@)));
            }
        }
        self.add_token_literal(TokenType::Number, Literal::Number(Decimal { digits, scale }));
    }

    /// Consumes one character and dispatches on it.
    fn scan_token(&mut self)
        requires
            old(self).inv(),
            old(self).start_pos@ == old(self).pos@,
            old(self).pos@ < old(self).source@.len(),
        ensures
            final(self).stepped_from(
                old(self),
                lex_step(old(self).source@, old(self).pos@, old(self).line as nat),
            ),
    {
        let ghost before = *self;
        let c = self.advance();
        match c {
            '(' => self.add_token(TokenType::LeftParen),
            ')' => self.add_token(TokenType::RightParen),
            '{' => self.add_token(TokenType::LeftBrace),
            '}' => self.add_token(TokenType::RightBrace),
            ',' => self.add_token(TokenType::Comma),
            '.' => self.add_token(TokenType::Dot),
            '+' => self.add_token(TokenType::Plus),
            '-' => self.add_token(TokenType::Minus),
            ';' => self.add_token(TokenType::Semicolon),
            '*' => self.add_token(TokenType::Star),
            '!' => {
                let t = if self.matches('=') {
                    TokenType::BangEqual
                } else {
                    TokenType::Bang
                };
                self.add_token(t);
            },
            '=' => {
                let t = if self.matches('=') {
                    TokenType::EqualEqual
                } else {
                    TokenType::Equal
                };
                self.add_token(t);
            },
            '<' => {
                let t = if self.matches('=') {
                    TokenType::LessEqual
                } else {
                    TokenType::Less
                };
                self.add_token(t);
            },
            '>' => {
                let t = if self.matches('=') {
                    TokenType::GreaterEqual
                } else {
                    TokenType::Greater
                };
                self.add_token(t);
            },
            '/' => {
                if self.matches('/') {
                    self.line_comment();
                } else if self.matches('*') {
                    self.block_comment();
                } else {
                    self.add_token(TokenType::Slash);
                }
            },
            ' ' | '\r' | '\t' => {
                proof {
                    self.lemma_silent_step(&before);
                }
            },
            '\n' => {
                self.line += 1;
                proof {
                    self.lemma_silent_step(&before);
                }
            },
            '"' => self.string(),
            _ => {
                if is_digit(c) {
                    self.number(c);
                } else if is_alpha(c) {
                    self.identifier();
                } else {
                    proof {
                        self.lemma_silent_step(&before);
                    }
                    self.error_at_line(ScanErrorKind::UnexpectedCharacter);
                }
            },
        }
    }

    /// Scans the whole text: the tokens in source order, closed by the
    /// end-marker, and the errors in the order in which they were found.
    pub fn scan(self) -> (output: ScanOutput)
        requires
            self.ready(),
        ensures
            token_views(output.tokens@) == scan(self.text()).tokens,
            error_views(output.errors@) == scan(self.text()).errors,
            tokens_well_formed(self.text(), token_views(output.tokens@)),
            errors_well_formed(error_views(output.errors@)),
    {
        let ghost src = self.source@;
        proof {
            law_scan_well_formed(src);
            law_scan_errors_well_formed(src);
        }
        let mut scanner = self;
        assert(token_views(scanner.tokens@) + scan_from(src, 0, 1).tokens =~= scan(src).tokens);
        assert(error_views(scanner.errors@) + scan_from(src, 0, 1).errors =~= scan(src).errors);
        while !scanner.is_at_end()
            invariant
                scanner.inv(),
                scanner.source@ == src,
                token_views(scanner.tokens@) + scan_from(
                    src,
                    scanner.pos@,
                    scanner.line as nat,
                ).tokens == scan(src).tokens,
                error_views(scanner.errors@) + scan_from(
                    src,
                    scanner.pos@,
                    scanner.line as nat,
                ).errors == scan(src).errors,
            decreases src.len() - scanner.pos@,
        {
            let ghost before = scanner;
            let ghost step = lex_step(src, scanner.pos@, scanner.line as nat);
            scanner.start = scanner.current;
            scanner.start_pos = Ghost(scanner.pos@);
            scanner.scan_token();
            proof {
                lemma_step_advances(src, before.pos@, before.line as nat);
                let rest = scan_from(src, step.next, step.line);
                assert(token_views(scanner.tokens@) + rest.tokens =~= token_views(before.tokens@)
                    + (optional(step.token) + rest.tokens));
                assert(error_views(scanner.errors@) + rest.errors =~= error_views(before.errors@)
                    + (optional(step.error) + rest.errors));
            }
        }
        let ghost before = token_views(scanner.tokens@);
        let marker = Token::new(TokenType::Eof, String::new(), None, scanner.line);
        scanner.tokens.push(marker);
        assert(token_views(scanner.tokens@) =~= before + seq![marker@]);
        assert(error_views(scanner.errors@) =~= error_views(scanner.errors@) + Seq::empty());
        ScanOutput { tokens: scanner.tokens, errors: scanner.errors }
    }

    /// Scans the whole text and returns its tokens, in source order and
    /// closed by the end-marker.
    pub fn scan_tokens(self) -> (tokens: Vec<Token>)
        requires
            self.ready(),
        ensures
            token_views(tokens@) == scan(self.text()).tokens,
            tokens_well_formed(self.text(), token_views(tokens@)),
    {
        self.scan().tokens
    }
}

/// The value of the decimal digit `c`.
fn digit_of(c: char) -> (value: u8)
    requires
        digit(c),
    ensures
        value == digit_value(c),
        value <= 9,
{
    (c as u32 - '0' as u32) as u8
}

} // verus!
