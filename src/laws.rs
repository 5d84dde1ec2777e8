//! What holds of every scan.

use vstd::prelude::*;

use crate::diagnostic::{DiagnosticView, ErrorKind};
use crate::lexical::{
    char_at, comment_end, diagnostics_of, digits_end, end_token, error_message, is_alpha,
    is_digit, lemma_comment_end, lemma_digits_end, lemma_line_step, lemma_quote_end, lemma_step_advances, lemma_word_end, lex_step,
    line_at, newlines, number_end, operator_kinds, quote_end, scan_from, single_char_kind,
    starts_from, step_output, token_starts, tokens_of, word_end, Outcome,
};
use crate::token::{Kind, TokenView};

verus! {

/// The tokens of the scan from `pos` on: `EndOfInput` comes last and only
/// there; every other token is the text of the source at its start, on the
/// line of that start; the tokens follow one another without overlap.
proof fn lemma_scan_layout(src: Seq<char>, pos: int)
    requires
        0 <= pos <= src.len(),
    ensures
        ({
            let ts = scan_from(src, pos).0;
            let st = starts_from(src, pos);
            &&& ts.len() == st.len() + 1
            &&& ts.last() == end_token(src)
            &&& forall|i: int|
                0 <= i < st.len() ==> {
                    &&& pos <= #[trigger] st[i]
                    &&& st[i] + ts[i].lexeme.len() <= src.len()
                    &&& ts[i].lexeme == src.subrange(st[i], st[i] + ts[i].lexeme.len())
                    &&& ts[i].lexeme.len() > 0
                    &&& ts[i].line == line_at(src, st[i])
                    &&& ts[i].kind != Kind::EndOfInput
                }
            &&& forall|i: int|
                0 <= i && i + 1 < st.len() ==> #[trigger] st[i] + ts[i].lexeme.len() <= st[i
                    + 1]
        }),
    decreases src.len() - pos,
{
    if pos < src.len() {
        lemma_step_advances(src, pos);
        let end = lex_step(src, pos).0;
        lemma_scan_layout(src, end);
        let here = step_output(src, pos);
        let rest = scan_from(src, end).0;
        let rest_st = starts_from(src, end);
        let ts = scan_from(src, pos).0;
        let st = starts_from(src, pos);
        assert(ts == here.0 + rest);
        if lex_step(src, pos).1 is Token {
            assert(st == seq![pos] + rest_st);
            assert(here.0.len() == 1);
            assert(ts[0].lexeme.len() == end - pos);
            assert(ts[0].lexeme =~= src.subrange(pos, pos + ts[0].lexeme.len()));
            assert forall|i: int| 0 <= i && i + 1 < st.len() implies #[trigger] st[i]
                + ts[i].lexeme.len() <= st[i + 1] by {
                if i > 0 {
                    assert(st[i] == rest_st[i - 1]);
                    assert(ts[i] == rest[i - 1]);
                    assert(st[i + 1] == rest_st[i]);
                } else {
                    assert(st[1] == rest_st[0]);
                }
            }
            assert forall|i: int| 0 < i < st.len() implies #[trigger] st[i] == rest_st[i - 1]
                && ts[i] == rest[i - 1] by {}
        } else {
            assert(st == rest_st);
            assert(here.0.len() == 0);
            assert(ts =~= rest);
        }
    } else {
        assert(starts_from(src, pos).len() == 0);
    }
}

/// The scan ends with exactly one `EndOfInput` token: it is the last token
/// and no other token has that kind.
pub proof fn end_of_input_comes_once_and_last(src: Seq<char>)
    ensures
        tokens_of(src).len() >= 1,
        tokens_of(src).last().kind == Kind::EndOfInput,
        tokens_of(src).last().lexeme.len() == 0,
        forall|i: int| 0 <= i < tokens_of(src).len() - 1 ==> #[trigger] tokens_of(src)[i].kind
            != Kind::EndOfInput,
{
    lemma_scan_layout(src, 0);
    assert forall|i: int| 0 <= i < tokens_of(src).len() - 1 implies #[trigger] tokens_of(
        src,
    )[i].kind != Kind::EndOfInput by {
        assert(token_starts(src)[i] >= 0);
    }
}

/// The tokens cut the source into pieces: each token but `EndOfInput` is the
/// source's text at its start, the pieces come in source order and do not
/// overlap; `EndOfInput` is empty.
pub proof fn tokens_are_pieces_of_the_source(src: Seq<char>)
    ensures
        token_starts(src).len() + 1 == tokens_of(src).len(),
        forall|i: int|
            0 <= i < token_starts(src).len() ==> {
                let t = tokens_of(src)[i];
                let s = #[trigger] token_starts(src)[i];
                &&& 0 <= s
                &&& s + t.lexeme.len() <= src.len()
                &&& t.lexeme == src.subrange(s, s + t.lexeme.len())
            },
        forall|i: int|
            0 <= i && i + 1 < token_starts(src).len() ==> #[trigger] token_starts(src)[i]
                + tokens_of(src)[i].lexeme.len() <= token_starts(src)[i + 1],
        tokens_of(src).last().lexeme.len() == 0,
{
    lemma_scan_layout(src, 0);
}

/// Lines only grow along the text.
proof fn lemma_line_monotone(src: Seq<char>, i: int, j: int)
    requires
        0 <= i <= j <= src.len(),
    ensures
        line_at(src, i) <= line_at(src, j),
    decreases j - i,
{
    if i < j {
        lemma_line_monotone(src, i, j - 1);
        assert(src.subrange(0, j).drop_last() =~= src.subrange(0, j - 1));
    }
}

/// Each token is on the line of its first character, one more than the
/// newlines before it (newlines inside string literals and comments count);
/// `EndOfInput` is on the line after all newlines of the source; and lines
/// never decrease along the tokens.
pub proof fn lines_follow_newlines(src: Seq<char>)
    ensures
        forall|i: int|
            0 <= i < token_starts(src).len() ==> tokens_of(src)[i].line == 1 + newlines(
                src.subrange(0, #[trigger] token_starts(src)[i]),
            ),
        tokens_of(src).last().line == 1 + newlines(src),
        forall|i: int, j: int|
            0 <= i <= j < tokens_of(src).len() ==> #[trigger] tokens_of(src)[i].line
                <= #[trigger] tokens_of(src)[j].line,
{
    lemma_scan_layout(src, 0);
    let ts = tokens_of(src);
    let st = token_starts(src);
    assert(src.subrange(0, src.len() as int) =~= src);
    assert forall|i: int, j: int| 0 <= i <= j < ts.len() implies #[trigger] ts[i].line
        <= #[trigger] ts[j].line by {
        let last = ts.len() - 1;
        let ei = if i < last { st[i] } else { src.len() as int };
        let ej = if j < last { st[j] } else { src.len() as int };
        if i < j && j < last {
            lemma_starts_sorted(src, i, j);
        }
        lemma_line_monotone(src, ei, ej);
    }
}

/// The starts of the tokens grow along the token sequence.
proof fn lemma_starts_sorted(src: Seq<char>, i: int, j: int)
    requires
        0 <= i <= j < token_starts(src).len(),
    ensures
        token_starts(src)[i] <= token_starts(src)[j],
    decreases j - i,
{
    lemma_scan_layout(src, 0);
    if i < j {
        lemma_starts_sorted(src, i, j - 1);
        assert(token_starts(src)[j - 1] + tokens_of(src)[j - 1].lexeme.len() <= token_starts(
            src,
        )[j]);
    }
}

/// A character that starts no token and is no whitespace.
pub open spec fn starts_nothing(c: char) -> bool {
    &&& single_char_kind(c) is None
    &&& operator_kinds(c) is None
    &&& c != '/' && c != ' ' && c != '\r' && c != '\t' && c != '\n' && c != '"'
    &&& !is_digit(c)
    &&& !is_alpha(c)
}

proof fn lemma_newlines_prepend(c: char, s: Seq<char>)
    ensures
        newlines(seq![c] + s) == newlines(s) + if c == '\n' {
            1nat
        } else {
            0nat
        },
    decreases s.len(),
{
    if s.len() > 0 {
        lemma_newlines_prepend(c, s.drop_last());
        assert((seq![c] + s).drop_last() =~= seq![c] + s.drop_last());
        assert((seq![c] + s).last() == s.last());
    } else {
        assert((seq![c] + s).drop_last() =~= Seq::<char>::empty());
        assert(newlines(Seq::<char>::empty()) == 0);
        assert(seq![c] + s =~= seq![c]);
    }
}

proof fn lemma_digits_shift(c: char, rest: Seq<char>, i: int)
    requires
        0 <= i <= rest.len(),
    ensures
        digits_end(seq![c] + rest, i + 1) == digits_end(rest, i) + 1,
    decreases rest.len() - i,
{
    if i < rest.len() {
        assert((seq![c] + rest)[i + 1] == rest[i]);
        lemma_digits_shift(c, rest, i + 1);
    }
}

proof fn lemma_word_shift(c: char, rest: Seq<char>, i: int)
    requires
        0 <= i <= rest.len(),
    ensures
        word_end(seq![c] + rest, i + 1) == word_end(rest, i) + 1,
    decreases rest.len() - i,
{
    if i < rest.len() {
        assert((seq![c] + rest)[i + 1] == rest[i]);
        lemma_word_shift(c, rest, i + 1);
    }
}

proof fn lemma_comment_shift(c: char, rest: Seq<char>, i: int)
    requires
        0 <= i <= rest.len(),
    ensures
        comment_end(seq![c] + rest, i + 1) == comment_end(rest, i) + 1,
    decreases rest.len() - i,
{
    if i < rest.len() {
        assert((seq![c] + rest)[i + 1] == rest[i]);
        lemma_comment_shift(c, rest, i + 1);
    }
}

proof fn lemma_quote_shift(c: char, rest: Seq<char>, i: int)
    requires
        0 <= i <= rest.len(),
    ensures
        quote_end(seq![c] + rest, i + 1) == quote_end(rest, i) + 1,
    decreases rest.len() - i,
{
    if i < rest.len() {
        assert((seq![c] + rest)[i + 1] == rest[i]);
        lemma_quote_shift(c, rest, i + 1);
    }
}

/// With a first character that is no newline, the scan from any later
/// position is the scan of the rest from the matching position.
proof fn lemma_scan_shift(c: char, rest: Seq<char>, i: int)
    requires
        c != '\n',
        0 <= i <= rest.len(),
    ensures
        scan_from(seq![c] + rest, i + 1) == scan_from(rest, i),
    decreases rest.len() - i,
{
    let src = seq![c] + rest;
    assert forall|k: int| 0 <= k <= rest.len() implies line_at(src, k + 1) == line_at(rest, k) by {
        assert(src.subrange(0, k + 1) =~= seq![c] + rest.subrange(0, k));
        lemma_newlines_prepend(c, rest.subrange(0, k));
    }
    assert(line_at(src, src.len() as int) == line_at(rest, rest.len() as int));
    if i < rest.len() {
        assert(src[i + 1] == rest[i]);
        assert(char_at(src, i + 2) == char_at(rest, i + 1));
        lemma_digits_shift(c, rest, i);
        lemma_word_shift(c, rest, i + 1);
        if i + 2 <= rest.len() {
            lemma_comment_shift(c, rest, i + 2);
        }
        lemma_quote_shift(c, rest, i + 1);
        let j = digits_end(rest, i);
        lemma_digits_end(rest, i);
        assert(char_at(src, j + 1) == char_at(rest, j));
        assert(char_at(src, j + 2) == char_at(rest, j + 1));
        if char_at(rest, j) == '.' && is_digit(char_at(rest, j + 1)) {
            lemma_digits_shift(c, rest, j + 1);
        }
        lemma_step_advances(rest, i);
        let end = lex_step(rest, i).0;
        assert forall|a: int, b: int| 0 <= a <= b <= rest.len() implies src.subrange(a + 1, b + 1)
            == rest.subrange(a, b) by {
            assert(src.subrange(a + 1, b + 1) =~= rest.subrange(a, b));
        }
        let d = rest[i];
        if d == '"' {
            let q = quote_end(rest, i + 1);
            lemma_quote_end(rest, i + 1);
            assert(src.subrange(i + 2, q + 1) == rest.subrange(i + 1, q));
            assert(lex_step(src, i + 1) == (end + 1, lex_step(rest, i).1));
        } else if is_digit(d) {
            let e = number_end(rest, i);
            assert(number_end(src, i + 1) == e + 1);
            assert(lex_step(src, i + 1) == (end + 1, lex_step(rest, i).1));
        } else if is_alpha(d) {
            let e = word_end(rest, i + 1);
            lemma_word_end(rest, i + 1);
            assert(src.subrange(i + 1, e + 1) == rest.subrange(i, e));
            assert(lex_step(src, i + 1) == (end + 1, lex_step(rest, i).1));
        } else {
            assert(lex_step(src, i + 1) == (end + 1, lex_step(rest, i).1));
        }
        assert(step_output(src, i + 1) == step_output(rest, i));
        lemma_scan_shift(c, rest, end);
    }
}

/// An unexpected character does not stop the pass: it yields one diagnostic
/// on line 1 and no token, and the rest of the source then gives exactly the
/// tokens and diagnostics it gives on its own.
pub proof fn unexpected_character_is_reported_and_skipped(c: char, rest: Seq<char>)
    requires
        starts_nothing(c),
    ensures
        tokens_of(seq![c] + rest) == tokens_of(rest),
        diagnostics_of(seq![c] + rest) == seq![
            DiagnosticView {
                line: 1,
                kind: ErrorKind::UnexpectedCharacter(c),
                message: error_message(ErrorKind::UnexpectedCharacter(c)),
            },
        ] + diagnostics_of(rest),
{
    let src = seq![c] + rest;
    assert(src[0] == c);
    assert(src.subrange(0, 0) =~= Seq::<char>::empty());
    lemma_scan_shift(c, rest, 0);
    assert(lex_step(src, 0) == (1int, Outcome::Error(ErrorKind::UnexpectedCharacter(c))));
    assert(Seq::<TokenView>::empty() + tokens_of(rest) =~= tokens_of(rest));
}

/// From `pos` the scan reaches `q` by steps that yield no token: each is
/// whitespace or a comment, or, where `errors` holds, also an unexpected
/// character or an unterminated string.
pub open spec fn skips_to(src: Seq<char>, pos: int, q: int, errors: bool) -> bool
    decreases src.len() - pos,
{
    if pos == q {
        true
    } else if 0 <= pos < q && q <= src.len() {
        let end = lex_step(src, pos).0;
        let out = lex_step(src, pos).1;
        &&& pos < end <= src.len()
        &&& (out is Skipped || (errors && out is Error))
        &&& skips_to(src, end, q, errors)
    } else {
        false
    }
}

/// The text around the tokens of the scan from `pos` on is skipped text.
pub open spec fn gaps_skipped(src: Seq<char>, pos: int, errors: bool) -> bool {
    let ts = scan_from(src, pos).0;
    let st = starts_from(src, pos);
    let n = st.len();
    if n == 0 {
        skips_to(src, pos, src.len() as int, errors)
    } else {
        &&& skips_to(src, pos, st[0], errors)
        &&& forall|i: int|
            0 <= i && i + 1 < n ==> skips_to(
                src,
                #[trigger] st[i] + ts[i].lexeme.len(),
                st[i + 1],
                errors,
            )
        &&& skips_to(src, st[n - 1] + ts[n - 1].lexeme.len(), src.len() as int, errors)
    }
}

#[verifier::rlimit(40)]
proof fn lemma_gaps(src: Seq<char>, pos: int, errors: bool)
    requires
        0 <= pos <= src.len(),
        errors || scan_from(src, pos).1.len() == 0,
    ensures
        gaps_skipped(src, pos, errors),
    decreases src.len() - pos,
{
    lemma_scan_layout(src, pos);
    if pos < src.len() {
        lemma_step_advances(src, pos);
        let end = lex_step(src, pos).0;
        let here = step_output(src, pos);
        assert(scan_from(src, pos).1 == here.1 + scan_from(src, end).1);
        lemma_gaps(src, end, errors);
        lemma_scan_layout(src, end);
        let rest = scan_from(src, end).0;
        let rest_st = starts_from(src, end);
        let ts = scan_from(src, pos).0;
        let st = starts_from(src, pos);
        assert(ts == here.0 + rest);
        if lex_step(src, pos).1 is Token {
            assert(st == seq![pos] + rest_st);
            assert(ts[0].lexeme.len() == end - pos);
            assert forall|i: int| 0 < i < st.len() implies #[trigger] st[i] == rest_st[i - 1]
                && ts[i] == rest[i - 1] by {}
            assert forall|i: int| 0 <= i && i + 1 < st.len() implies skips_to(
                src,
                #[trigger] st[i] + ts[i].lexeme.len(),
                st[i + 1],
                errors,
            ) by {
                if i > 0 {
                    assert(st[i] == rest_st[i - 1]);
                    assert(ts[i] == rest[i - 1]);
                    assert(st[i + 1] == rest_st[i]);
                } else {
                    assert(st[1] == rest_st[0]);
                }
            }
            if rest_st.len() > 0 {
                assert(st[st.len() - 1] == rest_st[rest_st.len() - 1]);
                assert(ts[st.len() - 1] == rest[rest_st.len() - 1]);
            }
        } else {
            assert(st == rest_st);
            assert(ts =~= rest);
            assert(lex_step(src, pos).1 is Error ==> here.1.len() == 1);
            if rest_st.len() > 0 {
                assert(end <= rest_st[0]);
            }
        }
    }
}

/// What lies between the tokens is skipped text: before the first token,
/// between each two, and after the last, the scan takes only steps that
/// yield no token (whitespace, comments, unexpected characters, an
/// unterminated string); with no diagnostics, only whitespace and comments.
pub proof fn text_between_tokens_is_skipped(src: Seq<char>)
    ensures
        gaps_skipped(src, 0, true),
        diagnostics_of(src).len() == 0 ==> gaps_skipped(src, 0, false),
{
    lemma_gaps(src, 0, true);
    if diagnostics_of(src).len() == 0 {
        lemma_gaps(src, 0, false);
    }
}

/// Longest match: `!`, `=`, `<` or `>` followed by `=` is one two-character
/// token, never the one-character token followed by `=`.
pub proof fn longest_match_wins(src: Seq<char>, i: int)
    requires
        0 <= i < src.len(),
        operator_kinds(src[i]) is Some,
        char_at(src, i + 1) == '=',
    ensures
        ({
            let (alone, with_equal) = operator_kinds(src[i])->0;
            &&& lex_step(src, i) == (i + 2, Outcome::Token(with_equal))
            &&& step_output(src, i).0 == seq![
                TokenView { kind: with_equal, lexeme: src.subrange(i, i + 2), line: line_at(src, i) },
            ]
            &&& step_output(src, i).1.len() == 0
        }),
{
}

proof fn lemma_comment_end_stops(src: Seq<char>, i: int)
    requires
        0 <= i <= src.len(),
    ensures
        i <= comment_end(src, i) <= src.len(),
        comment_end(src, i) == src.len() || src[comment_end(src, i)] == '\n',
        forall|k: int| i <= k < comment_end(src, i) ==> src[k] != '\n',
    decreases src.len() - i,
{
    lemma_comment_end(src, i);
    if i < src.len() && src[i] != '\n' {
        lemma_comment_end_stops(src, i + 1);
    }
}

/// A comment yields nothing and runs up to, not including, the next newline
/// or the end; the newline is left to the next step, which counts the line.
pub proof fn comment_runs_to_the_newline(src: Seq<char>, i: int)
    requires
        0 <= i,
        i + 1 < src.len(),
        src[i] == '/',
        src[i + 1] == '/',
    ensures
        ({
            let end = lex_step(src, i).0;
            &&& lex_step(src, i).1 is Skipped
            &&& step_output(src, i).0.len() == 0
            &&& step_output(src, i).1.len() == 0
            &&& i + 2 <= end <= src.len()
            &&& end == src.len() || src[end] == '\n'
            &&& forall|k: int| i <= k < end ==> src[k] != '\n'
        }),
{
    lemma_comment_end_stops(src, i + 2);
    let end = lex_step(src, i).0;
    assert(end == comment_end(src, i + 2));
    assert forall|k: int| i <= k < end implies src[k] != '\n' by {
        if k >= i + 2 {
            assert(i + 2 <= k < comment_end(src, i + 2));
        }
    }
}

/// Whitespace yields nothing and takes one character; the line grows by one
/// exactly when that character is a newline.
pub proof fn whitespace_counts_lines(src: Seq<char>, i: int)
    requires
        0 <= i < src.len(),
        src[i] == ' ' || src[i] == '\t' || src[i] == '\r' || src[i] == '\n',
    ensures
        lex_step(src, i) == (i + 1, Outcome::Skipped),
        step_output(src, i).0.len() == 0,
        step_output(src, i).1.len() == 0,
        line_at(src, i + 1) == line_at(src, i) + if src[i] == '\n' {
            1nat
        } else {
            0nat
        },
{
    lemma_line_step(src, i);
}

} // verus!
