//! The meaning of a scan, stated over the source's characters.

use vstd::prelude::*;

use crate::diagnostic::{DiagnosticView, ErrorKind};
use crate::keywords::keyword_kind;
use crate::token::{Kind, TokenView};

verus! {

pub open spec fn is_digit(c: char) -> bool {
    '0' <= c && c <= '9'
}

pub open spec fn is_alpha(c: char) -> bool {
    ('a' <= c && c <= 'z') || ('A' <= c && c <= 'Z') || c == '_'
}

pub open spec fn is_alphanumeric(c: char) -> bool {
    is_alpha(c) || is_digit(c)
}

/// The character at `i`, or `'\0'` past the end.
pub open spec fn char_at(src: Seq<char>, i: int) -> char {
    if 0 <= i < src.len() {
        src[i]
    } else {
        '\0'
    }
}

/// The number of newline characters in `s`.
pub open spec fn newlines(s: Seq<char>) -> nat
    decreases s.len(),
{
    if s.len() == 0 {
        0
    } else {
        newlines(s.drop_last()) + if s.last() == '\n' {
            1nat
        } else {
            0nat
        }
    }
}

/// The 1-based line on which position `i` of `src` stands.
pub open spec fn line_at(src: Seq<char>, i: int) -> nat {
    1 + newlines(src.subrange(0, i))
}

/// The end of the run of digits that starts at `i`.
pub open spec fn digits_end(src: Seq<char>, i: int) -> int
    decreases src.len() - i,
{
    if 0 <= i < src.len() && is_digit(src[i]) {
        digits_end(src, i + 1)
    } else {
        i
    }
}

/// The end of the run of letters, digits and underscores that starts at `i`.
pub open spec fn word_end(src: Seq<char>, i: int) -> int
    decreases src.len() - i,
{
    if 0 <= i < src.len() && is_alphanumeric(src[i]) {
        word_end(src, i + 1)
    } else {
        i
    }
}

/// The first position at or after `i` that holds a newline, or the end.
pub open spec fn comment_end(src: Seq<char>, i: int) -> int
    decreases src.len() - i,
{
    if 0 <= i < src.len() && src[i] != '\n' {
        comment_end(src, i + 1)
    } else {
        i
    }
}

/// The first position at or after `i` that holds a `"`, or the end.
pub open spec fn quote_end(src: Seq<char>, i: int) -> int
    decreases src.len() - i,
{
    if 0 <= i < src.len() && src[i] != '"' {
        quote_end(src, i + 1)
    } else {
        i
    }
}

/// The end of the number literal that starts at `i`: digits, then a `.` and
/// digits only where a digit follows the `.`.
pub open spec fn number_end(src: Seq<char>, i: int) -> int {
    let j = digits_end(src, i);
    if char_at(src, j) == '.' && is_digit(char_at(src, j + 1)) {
        digits_end(src, j + 1)
    } else {
        j
    }
}

/// What one step of the scan makes of the text it consumes.
pub enum Outcome {
    /// Whitespace or a comment.
    Skipped,
    Token(Kind),
    Error(ErrorKind),
}

/// A character that forms a token on its own.
pub open spec fn single_char_kind(c: char) -> Option<Kind> {
    if c == '(' {
        Some(Kind::LeftParen)
    } else if c == ')' {
        Some(Kind::RightParen)
    } else if c == '{' {
        Some(Kind::LeftBrace)
    } else if c == '}' {
        Some(Kind::RightBrace)
    } else if c == ',' {
        Some(Kind::Comma)
    } else if c == '.' {
        Some(Kind::Dot)
    } else if c == '-' {
        Some(Kind::Minus)
    } else if c == '+' {
        Some(Kind::Plus)
    } else if c == ';' {
        Some(Kind::Semicolon)
    } else if c == '*' {
        Some(Kind::Star)
    } else {
        None
    }
}

/// For `!`, `=`, `<` and `>`: the kind alone and the kind followed by `=`.
pub open spec fn operator_kinds(c: char) -> Option<(Kind, Kind)> {
    if c == '!' {
        Some((Kind::Bang, Kind::BangEqual))
    } else if c == '=' {
        Some((Kind::Equal, Kind::EqualEqual))
    } else if c == '<' {
        Some((Kind::Less, Kind::LessEqual))
    } else if c == '>' {
        Some((Kind::Greater, Kind::GreaterEqual))
    } else {
        None
    }
}

/// One step of the scan from `start` (< the length of `src`): where it ends
/// and what it yields.
pub open spec fn lex_step(src: Seq<char>, start: int) -> (int, Outcome) {
    let c = src[start];
    if single_char_kind(c) is Some {
        (start + 1, Outcome::Token(single_char_kind(c)->0))
    } else if operator_kinds(c) is Some {
        let (alone, with_equal) = operator_kinds(c)->0;
        if char_at(src, start + 1) == '=' {
            (start + 2, Outcome::Token(with_equal))
        } else {
            (start + 1, Outcome::Token(alone))
        }
    } else if c == '/' {
        if char_at(src, start + 1) == '/' {
            (comment_end(src, start + 2), Outcome::Skipped)
        } else {
            (start + 1, Outcome::Token(Kind::Slash))
        }
    } else if c == ' ' || c == '\r' || c == '\t' || c == '\n' {
        (start + 1, Outcome::Skipped)
    } else if c == '"' {
        let q = quote_end(src, start + 1);
        if q < src.len() {
            (q + 1, Outcome::Token(Kind::String(src.subrange(start + 1, q))))
        } else {
            (q, Outcome::Error(ErrorKind::UnterminatedString))
        }
    } else if is_digit(c) {
        let e = number_end(src, start);
        (e, Outcome::Token(Kind::Number(src.subrange(start, e))))
    } else if is_alpha(c) {
        let e = word_end(src, start + 1);
        let text = src.subrange(start, e);
        (e, Outcome::Token(if keyword_kind(text) is Some { keyword_kind(text)->0 } else { Kind::Identifier }))
    } else {
        (start + 1, Outcome::Error(ErrorKind::UnexpectedCharacter(c)))
    }
}

/// The message that goes with each kind of error.
pub open spec fn error_message(kind: ErrorKind) -> Seq<char> {
    match kind {
        ErrorKind::UnterminatedString => "Unterminated string."@,
        ErrorKind::UnexpectedCharacter(c) => "Unexpected character "@.push(c),
    }
}

/// The line an error is reported on: the end of input for an unterminated
/// string, the line of the character otherwise.
pub open spec fn error_line(src: Seq<char>, start: int, kind: ErrorKind) -> nat {
    match kind {
        ErrorKind::UnterminatedString => line_at(src, src.len() as int),
        ErrorKind::UnexpectedCharacter(_) => line_at(src, start),
    }
}

/// The tokens and diagnostics that one step of the scan from `start` yields:
/// at most one of either.
pub open spec fn step_output(src: Seq<char>, start: int) -> (Seq<TokenView>, Seq<DiagnosticView>) {
    let (end, out) = lex_step(src, start);
    match out {
        Outcome::Skipped => (Seq::empty(), Seq::empty()),
        Outcome::Token(k) => (
            seq![TokenView { kind: k, lexeme: src.subrange(start, end), line: line_at(src, start) }],
            Seq::empty(),
        ),
        Outcome::Error(e) => (
            Seq::empty(),
            seq![DiagnosticView { line: error_line(src, start, e), kind: e, message: error_message(e) }],
        ),
    }
}

/// The `EndOfInput` token of `src`: empty, on the last line.
pub open spec fn end_token(src: Seq<char>) -> TokenView {
    TokenView { kind: Kind::EndOfInput, lexeme: Seq::empty(), line: line_at(src, src.len() as int) }
}

/// The tokens and diagnostics of the scan of `src` from position `pos` on,
/// `EndOfInput` included.
pub open spec fn scan_from(src: Seq<char>, pos: int) -> (Seq<TokenView>, Seq<DiagnosticView>)
    decreases src.len() - pos,
{
    if pos < 0 || pos >= src.len() {
        (seq![end_token(src)], Seq::empty())
    } else {
        let end = lex_step(src, pos).0;
        if end <= pos || end > src.len() {
            (Seq::empty(), Seq::empty())
        } else {
            let here = step_output(src, pos);
            let rest = scan_from(src, end);
            (here.0 + rest.0, here.1 + rest.1)
        }
    }
}

/// Where each token of the scan of `src` from `pos` on starts, in order,
/// `EndOfInput` left out.
pub open spec fn starts_from(src: Seq<char>, pos: int) -> Seq<int>
    decreases src.len() - pos,
{
    if pos < 0 || pos >= src.len() {
        Seq::empty()
    } else {
        let end = lex_step(src, pos).0;
        if end <= pos || end > src.len() {
            Seq::empty()
        } else if lex_step(src, pos).1 is Token {
            seq![pos] + starts_from(src, end)
        } else {
            starts_from(src, end)
        }
    }
}

/// Where each token of `src` but `EndOfInput` starts.
pub open spec fn token_starts(src: Seq<char>) -> Seq<int> {
    starts_from(src, 0)
}

/// The tokens of `src`, in order, ending with `EndOfInput`.
pub open spec fn tokens_of(src: Seq<char>) -> Seq<TokenView> {
    scan_from(src, 0).0
}

/// The diagnostics of `src`, in order.
pub open spec fn diagnostics_of(src: Seq<char>) -> Seq<DiagnosticView> {
    scan_from(src, 0).1
}

pub proof fn lemma_newlines_bound(s: Seq<char>)
    ensures
        newlines(s) <= s.len(),
    decreases s.len(),
{
    if s.len() > 0 {
        lemma_newlines_bound(s.drop_last());
    }
}

/// Moving one character forward adds one line exactly when that character
/// is a newline.
pub proof fn lemma_line_step(src: Seq<char>, i: int)
    requires
        0 <= i < src.len(),
    ensures
        line_at(src, i + 1) == line_at(src, i) + if src[i] == '\n' {
            1nat
        } else {
            0nat
        },
        line_at(src, i + 1) <= i + 2,
{
    assert(src.subrange(0, i + 1).drop_last() =~= src.subrange(0, i));
    lemma_newlines_bound(src.subrange(0, i + 1));
}

pub proof fn lemma_digits_end(src: Seq<char>, i: int)
    requires
        0 <= i <= src.len(),
    ensures
        i <= digits_end(src, i) <= src.len(),
    decreases src.len() - i,
{
    if i < src.len() && is_digit(src[i]) {
        lemma_digits_end(src, i + 1);
    }
}

pub proof fn lemma_word_end(src: Seq<char>, i: int)
    requires
        0 <= i <= src.len(),
    ensures
        i <= word_end(src, i) <= src.len(),
    decreases src.len() - i,
{
    if i < src.len() && is_alphanumeric(src[i]) {
        lemma_word_end(src, i + 1);
    }
}

pub proof fn lemma_comment_end(src: Seq<char>, i: int)
    requires
        0 <= i <= src.len(),
    ensures
        i <= comment_end(src, i) <= src.len(),
    decreases src.len() - i,
{
    if i < src.len() && src[i] != '\n' {
        lemma_comment_end(src, i + 1);
    }
}

pub proof fn lemma_quote_end(src: Seq<char>, i: int)
    requires
        0 <= i <= src.len(),
    ensures
        i <= quote_end(src, i) <= src.len(),
    decreases src.len() - i,
{
    if i < src.len() && src[i] != '"' {
        lemma_quote_end(src, i + 1);
    }
}

/// Every step of the scan consumes at least one character and stays within
/// the source.
pub proof fn lemma_step_advances(src: Seq<char>, start: int)
    requires
        0 <= start < src.len(),
    ensures
        start < lex_step(src, start).0 <= src.len(),
{
    lemma_digits_end(src, start + 1);
    lemma_word_end(src, start + 1);
    if char_at(src, start + 1) == '/' {
        lemma_comment_end(src, start + 2);
    }
    lemma_quote_end(src, start + 1);
    let j = digits_end(src, start);
    if char_at(src, j) == '.' && is_digit(char_at(src, j + 1)) {
        lemma_digits_end(src, j + 1);
    }
}

} // verus!
