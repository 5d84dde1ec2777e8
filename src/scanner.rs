//! The scanner: one left-to-right pass over the source.

use vstd::prelude::*;
use vstd::string::*;

use crate::diagnostic::{diagnostic_views, error, Diagnostic, DiagnosticView, ErrorKind};
use crate::keywords::keyword;
use crate::lexical::{
    char_at, comment_end, diagnostics_of, digits_end, end_token, error_message, is_alpha,
    is_alphanumeric, is_digit, lemma_line_step, lemma_step_advances, lex_step, line_at, quote_end,
    scan_from, step_output, tokens_of, word_end,
};
use crate::token::{token_views, Token, TokenType, TokenView};

verus! {

/// The scan cursor: the current line, where the token being built starts,
/// and the next character to read (counted in characters).
#[derive(Debug, Clone, Copy, PartialEq, Eq)]
pub struct Position {
    pub line: usize,
    pub start: usize,
    pub current: usize,
}

impl Position {
    /// The cursor at the start of the source.
    pub fn new() -> (p: Position)
        ensures
            p.line == 1,
            p.start == 0,
            p.current == 0,
    {
        Position { line: 1, start: 0, current: 0 }
    }
}

/// Scans one source text; the tokens and diagnostics found so far are kept
/// until the pass is over.
pub struct Scanner<'a> {
    source: &'a str,
    position: Position,
    tokens: Vec<Token>,
    diagnostics: Vec<Diagnostic>,
}

impl<'a> Scanner<'a> {
    /// The characters of the source.
    pub closed spec fn text(&self) -> Seq<char> {
        self.source@
    }

    /// The scan cursor.
    pub closed spec fn cursor(&self) -> Position {
        self.position
    }

    /// The tokens found so far.
    pub closed spec fn found(&self) -> Seq<TokenView> {
        token_views(self.tokens@)
    }

    /// The diagnostics reported so far.
    pub closed spec fn reported(&self) -> Seq<DiagnosticView> {
        diagnostic_views(self.diagnostics@)
    }

    /// The cursor lies within the source, its line is the line of `current`,
    /// and what was found so far followed by the scan of the rest is the
    /// scan of the whole source.
    pub closed spec fn wf(&self) -> bool {
        let src = self.source@;
        &&& self.cursor_ok()
        &&& token_views(self.tokens@) + scan_from(src, self.position.current as int).0
            == tokens_of(src)
        &&& diagnostic_views(self.diagnostics@) + scan_from(src, self.position.current as int).1
            == diagnostics_of(src)
    }

    /// The cursor lies within the source and its line is the line of `current`.
    closed spec fn cursor_ok(&self) -> bool {
        let src = self.source@;
        &&& src.len() < usize::MAX
        &&& self.position.start <= self.position.current <= src.len()
        &&& self.position.line == line_at(src, self.position.current as int)
    }

    /// A scanner positioned at the start of `source`.
    pub fn new(source: &'a str) -> (s: Scanner<'a>)
        requires
            source@.len() < usize::MAX,
        ensures
            s.text() == source@,
            s.cursor() == (Position { line: 1, start: 0, current: 0 }),
            s.found().len() == 0,
            s.reported().len() == 0,
            s.wf(),
    {
        let s = Scanner { source, position: Position::new(), tokens: vec![], diagnostics: vec![] };
        assert(token_views(s.tokens@) =~= Seq::empty());
        assert(diagnostic_views(s.diagnostics@) =~= Seq::empty());
        assert(Seq::<TokenView>::empty() + tokens_of(source@) =~= tokens_of(source@));
        assert(Seq::<DiagnosticView>::empty() + diagnostics_of(source@) =~= diagnostics_of(
            source@,
        ));
        assert(source@.subrange(0, 0) =~= Seq::<char>::empty());
        s
    }

    /// Runs the whole pass: every token of the source in order, ending with
    /// `EndOfInput`, and every lexical error found on the way.
    pub fn scan_tokens(self) -> (r: (Vec<Token>, Vec<Diagnostic>))
        requires
            self.wf(),
        ensures
            token_views(r.0@) == tokens_of(self.text()),
            diagnostic_views(r.1@) == diagnostics_of(self.text()),
    {
        let mut s = self;
        let ghost src = s.source@;
        while !s.is_at_end()
            invariant
                s.wf(),
                s.source@ == src,
            decreases src.len() - s.position.current,
        {
            s.position.start = s.position.current;
            let ghost pos = s.position.current as int;
            let ghost old_tokens = token_views(s.tokens@);
            let ghost old_diagnostics = diagnostic_views(s.diagnostics@);
            s.scan_token();
            proof {
                lemma_step_advances(src, pos);
                let here = step_output(src, pos);
                let rest = scan_from(src, s.position.current as int);
                assert(scan_from(src, pos) == (here.0 + rest.0, here.1 + rest.1));
                assert(old_tokens + (here.0 + rest.0) =~= (old_tokens + here.0) + rest.0);
                assert(old_diagnostics + (here.1 + rest.1) =~= (old_diagnostics + here.1)
                    + rest.1);
            }
        }
        let line = s.position.line;
        let ghost before = s.tokens@;
        s.tokens.push(Token { kind: TokenType::EndOfInput, lexeme: String::new(), line });
        proof {
            assert(token_views(s.tokens@) =~= token_views(before).push(end_token(src)));
            assert(s.position.current == src.len());
            assert(diagnostic_views(s.diagnostics@) + Seq::<DiagnosticView>::empty()
                =~= diagnostic_views(s.diagnostics@));
        }
        (s.tokens, s.diagnostics)
    }

    fn is_at_end(&self) -> (r: bool)
        requires
            self.cursor_ok(),
        ensures
            r == (self.position.current == self.source@.len()),
    {
        self.position.current >= self.source.unicode_len()
    }

    /// The character after the next one, or `'\0'` past the end.
    fn peek_next(&self) -> (c: char)
        requires
            self.cursor_ok(),
        ensures
            c == char_at(self.source@, self.position.current + 1),
    {
        if self.position.current + 1 >= self.source.unicode_len() {
            return '\0';
        }
        self.source.get_char(self.position.current + 1)
    }

    /// The next character, or `'\0'` at the end.
    fn peek(&self) -> (c: char)
        requires
            self.cursor_ok(),
        ensures
            c == char_at(self.source@, self.position.current as int),
    {
        if self.is_at_end() {
            return '\0';
        }
        self.source.get_char(self.position.current)
    }

    /// Consumes the next character. The line is left to the caller: the
    /// result says by how much the line of `current` grew.
    fn advance(&mut self) -> (c: char)
        requires
            old(self).position.start <= old(self).position.current < old(self).source@.len(),
            old(self).source@.len() < usize::MAX,
        ensures
            c == old(self).source@[old(self).position.current as int],
            final(self).position.current == old(self).position.current + 1,
            final(self).position.line == old(self).position.line,
            final(self).position.start == old(self).position.start,
            line_at(old(self).source@, final(self).position.current as int) == line_at(
                old(self).source@,
                old(self).position.current as int,
            ) + if c == '\n' {
                1nat
            } else {
                0nat
            },
            line_at(old(self).source@, final(self).position.current as int)
                <= final(self).position.current + 1,
            final(self).source == old(self).source,
            final(self).tokens == old(self).tokens,
            final(self).diagnostics == old(self).diagnostics,
    {
        let c = self.source.get_char(self.position.current);
        proof {
            lemma_line_step(self.source@, self.position.current as int);
        }
        self.position.current += 1;
        c
    }

    /// The characters of the source from `from` up to `to`.
    fn substring(&self, from: usize, to: usize) -> (r: String)
        requires
            from <= to <= self.source@.len(),
        ensures
            r@ == self.source@.subrange(from as int, to as int),
    {
        String::from_str(self.source.substring_char(from, to))
    }

    /// Adds a token of kind `kind` for the text from `start` to `current`.
    fn add_token(&mut self, kind: TokenType, line: usize)
        requires
            old(self).position.start <= old(self).position.current <= old(self).source@.len(),
        ensures
            token_views(final(self).tokens@) == token_views(old(self).tokens@) + seq![
                TokenView {
                    kind: kind@,
                    lexeme: old(self).source@.subrange(
                        old(self).position.start as int,
                        old(self).position.current as int,
                    ),
                    line: line as nat,
                },
            ],
            final(self).position == old(self).position,
            final(self).source == old(self).source,
            final(self).diagnostics == old(self).diagnostics,
    {
        let lexeme = self.substring(self.position.start, self.position.current);
        let ghost before = self.tokens@;
        let token = Token { kind, lexeme, line };
        self.tokens.push(token);
        assert(token_views(self.tokens@) =~= token_views(before) + seq![token@]);
    }

    /// Records an error of kind `kind` on `line`.
    fn add_error(&mut self, kind: ErrorKind, message: &str, line: usize)
        ensures
            diagnostic_views(final(self).diagnostics@) == diagnostic_views(old(self).diagnostics@)
                + seq![DiagnosticView { line: line as nat, kind, message: message@ }],
            final(self).position == old(self).position,
            final(self).source == old(self).source,
            final(self).tokens == old(self).tokens,
    {
        let ghost before = self.diagnostics@;
        let d = error(line, kind, message);
        self.diagnostics.push(d);
        assert(diagnostic_views(self.diagnostics@) =~= diagnostic_views(before) + seq![d@]);
    }

    /// The step that started at `before`'s `start` is over, and it did what
    /// the scan of the source asks of it.
    closed spec fn step_done(&self, before: &Self) -> bool {
        let src = before.source@;
        let start = before.position.start as int;
        &&& self.cursor_ok()
        &&& self.source@ == src
        &&& self.position.start == before.position.start
        &&& self.position.current == lex_step(src, start).0
        &&& token_views(self.tokens@) == token_views(before.tokens@) + step_output(src, start).0
        &&& diagnostic_views(self.diagnostics@) == diagnostic_views(before.diagnostics@)
            + step_output(src, start).1
    }

    /// Scans what starts at `current`: one token, or whitespace or a comment,
    /// or one error.
    fn scan_token(&mut self)
        requires
            old(self).cursor_ok(),
            old(self).position.start == old(self).position.current,
            old(self).position.current < old(self).source@.len(),
        ensures
            final(self).step_done(old(self)),
    {
        let ghost src = self.source@;
        let ghost start = self.position.start as int;
        let ghost toks = token_views(self.tokens@);
        let ghost diags = diagnostic_views(self.diagnostics@);
        proof {
            assert(toks + Seq::<TokenView>::empty() =~= toks);
            assert(diags + Seq::<DiagnosticView>::empty() =~= diags);
        }
        let line = self.position.line;
        let c = self.advance();
        match c {
            '(' => self.add_token(TokenType::LeftParen, line),
            ')' => self.add_token(TokenType::RightParen, line),
            '{' => self.add_token(TokenType::LeftBrace, line),
            '}' => self.add_token(TokenType::RightBrace, line),
            ',' => self.add_token(TokenType::Comma, line),
            '.' => self.add_token(TokenType::Dot, line),
            '-' => self.add_token(TokenType::Minus, line),
            '+' => self.add_token(TokenType::Plus, line),
            ';' => self.add_token(TokenType::Semicolon, line),
            '*' => self.add_token(TokenType::Star, line),
            '!' => {
                let kind = if self.peek() == '=' {
                    self.advance();
                    TokenType::BangEqual
                } else {
                    TokenType::Bang
                };
                self.add_token(kind, line);
            },
            '=' => {
                let kind = if self.peek() == '=' {
                    self.advance();
                    TokenType::EqualEqual
                } else {
                    TokenType::Equal
                };
                self.add_token(kind, line);
            },
            '<' => {
                let kind = if self.peek() == '=' {
                    self.advance();
                    TokenType::LessEqual
                } else {
                    TokenType::Less
                };
                self.add_token(kind, line);
            },
            '>' => {
                let kind = if self.peek() == '=' {
                    self.advance();
                    TokenType::GreaterEqual
                } else {
                    TokenType::Greater
                };
                self.add_token(kind, line);
            },
            '/' => {
                if self.peek() == '/' {
                    self.advance();
                    while self.peek() != '\n' && !self.is_at_end()
                        invariant
                            self.cursor_ok(),
                            self.source@ == src,
                            self.position.start == start,
                            start + 2 <= self.position.current,
                            comment_end(src, self.position.current as int) == comment_end(
                                src,
                                start + 2,
                            ),
                            token_views(self.tokens@) == toks,
                            diagnostic_views(self.diagnostics@) == diags,
                        decreases src.len() - self.position.current,
                    {
                        self.advance();
                    }
                } else {
                    self.add_token(TokenType::Slash, line);
                }
            },
            ' ' | '\r' | '\t' => {},
            '\n' => self.position.line += 1,
            '"' => self.string(line),
            _ => {
                if is_ascii_digit(c) {
                    self.number(line);
                } else if is_alpha_or_underscore(c) {
                    self.identifier(line);
                } else {
                    let message = String::from_str("Unexpected character ").concat(
                        self.source.substring_char(self.position.start, self.position.current),
                    );
                    proof {
                        assert(src.subrange(start, start + 1) =~= seq![c]);
                        assert(message@ =~= error_message(ErrorKind::UnexpectedCharacter(c)));
                    }
                    self.add_error(ErrorKind::UnexpectedCharacter(c), message.as_str(), line);
                }
            },
        }
    }

    /// Scans a string literal whose opening quote was just consumed.
    fn string(&mut self, line: usize)
        requires
            old(self).cursor_ok(),
            old(self).position.current == old(self).position.start + 1,
            old(self).source@[old(self).position.start as int] == '"',
            line == line_at(old(self).source@, old(self).position.start as int),
        ensures
            final(self).step_done(old(self)),
    {
        let ghost src = self.source@;
        let ghost start = self.position.start as int;
        let ghost toks = token_views(self.tokens@);
        let ghost diags = diagnostic_views(self.diagnostics@);
        while self.peek() != '"' && !self.is_at_end()
            invariant
                self.cursor_ok(),
                self.source@ == src,
                self.position.start == start,
                start + 1 <= self.position.current,
                quote_end(src, self.position.current as int) == quote_end(src, start + 1),
                token_views(self.tokens@) == toks,
                diagnostic_views(self.diagnostics@) == diags,
            decreases src.len() - self.position.current,
        {
            if self.peek() == '\n' {
                proof {
                    lemma_line_step(src, self.position.current as int);
                }
                self.position.line += 1;
            }
            self.advance();
        }
        if self.is_at_end() {
            let end_line = self.position.line;
            self.add_error(ErrorKind::UnterminatedString, "Unterminated string.", end_line);
            assert(toks + Seq::<TokenView>::empty() =~= toks);
            return;
        }
        self.advance();
        let value = self.substring(self.position.start + 1, self.position.current - 1);
        self.add_token(TokenType::String(value), line);
        assert(diags + Seq::<DiagnosticView>::empty() =~= diags);
    }

    /// Scans a number literal whose first digit was just consumed.
    fn number(&mut self, line: usize)
        requires
            old(self).cursor_ok(),
            old(self).position.current == old(self).position.start + 1,
            is_digit(old(self).source@[old(self).position.start as int]),
            line == line_at(old(self).source@, old(self).position.start as int),
        ensures
            final(self).step_done(old(self)),
    {
        let ghost src = self.source@;
        let ghost start = self.position.start as int;
        let ghost toks = token_views(self.tokens@);
        let ghost diags = diagnostic_views(self.diagnostics@);
        while is_ascii_digit(self.peek())
            invariant
                self.cursor_ok(),
                self.source@ == src,
                self.position.start == start,
                start + 1 <= self.position.current,
                digits_end(src, self.position.current as int) == digits_end(src, start),
                token_views(self.tokens@) == toks,
                diagnostic_views(self.diagnostics@) == diags,
            decreases src.len() - self.position.current,
        {
            self.advance();
        }
        let ghost j = self.position.current as int;
        if self.peek() == '.' && is_ascii_digit(self.peek_next()) {
            self.advance();
            while is_ascii_digit(self.peek())
                invariant
                    self.cursor_ok(),
                    self.source@ == src,
                    self.position.start == start,
                    j + 1 <= self.position.current,
                    digits_end(src, self.position.current as int) == digits_end(src, j + 1),
                    token_views(self.tokens@) == toks,
                    diagnostic_views(self.diagnostics@) == diags,
                decreases src.len() - self.position.current,
            {
                self.advance();
            }
        }
        let value = self.substring(self.position.start, self.position.current);
        self.add_token(TokenType::Number(value), line);
        assert(diags + Seq::<DiagnosticView>::empty() =~= diags);
    }

    /// Scans an identifier or keyword whose first character was just consumed.
    fn identifier(&mut self, line: usize)
        requires
            old(self).cursor_ok(),
            old(self).position.current == old(self).position.start + 1,
            is_alpha(old(self).source@[old(self).position.start as int]),
            line == line_at(old(self).source@, old(self).position.start as int),
        ensures
            final(self).step_done(old(self)),
    {
        let ghost src = self.source@;
        let ghost start = self.position.start as int;
        let ghost toks = token_views(self.tokens@);
        let ghost diags = diagnostic_views(self.diagnostics@);
        while is_alphanumeric_or_underscore(self.peek())
            invariant
                self.cursor_ok(),
                self.source@ == src,
                self.position.start == start,
                start + 1 <= self.position.current,
                word_end(src, self.position.current as int) == word_end(src, start + 1),
                token_views(self.tokens@) == toks,
                diagnostic_views(self.diagnostics@) == diags,
            decreases src.len() - self.position.current,
        {
            self.advance();
        }
        let text = self.substring(self.position.start, self.position.current);
        let kind = match keyword(text.as_str()) {
            Some(k) => k,
            None => TokenType::Identifier,
        };
        self.add_token(kind, line);
        assert(diags + Seq::<DiagnosticView>::empty() =~= diags);
    }
}

/// Scans `source` in one pass: its tokens, ending with `EndOfInput`, and
/// every lexical error found; an error never stops the pass.
pub fn scan(source: &str) -> (r: (Vec<Token>, Vec<Diagnostic>))
    requires
        source@.len() < usize::MAX,
    ensures
        token_views(r.0@) == tokens_of(source@),
        diagnostic_views(r.1@) == diagnostics_of(source@),
{
    Scanner::new(source).scan_tokens()
}

pub fn is_alpha_or_underscore(c: char) -> (r: bool)
    ensures
        r == is_alpha(c),
{
    c == '_' || ('a' <= c && c <= 'z') || ('A' <= c && c <= 'Z')
}

pub fn is_alphanumeric_or_underscore(c: char) -> (r: bool)
    ensures
        r == is_alphanumeric(c),
{
    is_alpha_or_underscore(c) || is_ascii_digit(c)
}

pub fn is_ascii_digit(c: char) -> (r: bool)
    ensures
        r == is_digit(c),
{
    '0' <= c && c <= '9'
}

} // verus!
