//! A character that starts no token hides no token around it.

use vstd::prelude::*;

use crate::diagnostic::{DiagnosticView, ErrorKind};
use crate::laws::starts_nothing;
use crate::lexical::{
    char_at, comment_end, diagnostics_of, digits_end, error_message, is_alpha, is_alphanumeric,
    is_digit, lemma_digits_end, lemma_quote_end, lemma_step_advances, lex_step, line_at, newlines,
    number_end, quote_end, scan_from, step_output, tokens_of, word_end, Outcome,
};

verus! {

/// The scan from `pos` starts a step at `p`.
pub open spec fn reaches(src: Seq<char>, pos: int, p: int) -> bool
    decreases src.len() - pos,
{
    if pos == p {
        true
    } else if 0 <= pos < p && p <= src.len() {
        let end = lex_step(src, pos).0;
        pos < end <= p && reaches(src, end, p)
    } else {
        false
    }
}

/// A character that ends every run, comment and string alike, and joins no
/// operator.
spec fn inert(c: char) -> bool {
    !is_digit(c) && !is_alphanumeric(c) && c != '\n' && c != '"' && c != '=' && c != '/' && c
        != '.'
}

/// `s` and `t` differ at most at `p`, where both hold inert characters.
spec fn differ_at(s: Seq<char>, t: Seq<char>, p: int) -> bool {
    &&& s.len() == t.len()
    &&& 0 <= p < s.len()
    &&& inert(s[p]) && inert(t[p])
    &&& forall|i: int| 0 <= i < s.len() && i != p ==> s[i] == t[i]
}

proof fn lemma_runs_agree(s: Seq<char>, t: Seq<char>, p: int, i: int)
    requires
        differ_at(s, t, p),
        0 <= i <= s.len(),
    ensures
        digits_end(s, i) == digits_end(t, i),
        word_end(s, i) == word_end(t, i),
        comment_end(s, i) == comment_end(t, i),
        quote_end(s, i) == quote_end(t, i),
    decreases s.len() - i,
{
    if i < s.len() {
        lemma_runs_agree(s, t, p, i + 1);
    }
}

proof fn lemma_lines_agree(s: Seq<char>, t: Seq<char>, p: int, k: int)
    requires
        differ_at(s, t, p),
        0 <= k <= s.len(),
    ensures
        line_at(s, k) == line_at(t, k),
    decreases k,
{
    if k > 0 {
        lemma_lines_agree(s, t, p, k - 1);
        assert(s.subrange(0, k).drop_last() =~= s.subrange(0, k - 1));
        assert(t.subrange(0, k).drop_last() =~= t.subrange(0, k - 1));
    } else {
        assert(s.subrange(0, 0) =~= t.subrange(0, 0));
    }
}

/// A step that does not cover `p` is the same step in both texts.
proof fn lemma_step_agrees(s: Seq<char>, t: Seq<char>, p: int, q: int)
    requires
        differ_at(s, t, p),
        0 <= q < s.len(),
        q != p,
        q > p || lex_step(s, q).0 <= p,
    ensures
        lex_step(s, q) == lex_step(t, q),
        step_output(s, q) == step_output(t, q),
{
    lemma_step_advances(s, q);
    lemma_runs_agree(s, t, p, q + 1);
    if q + 2 <= s.len() {
        lemma_runs_agree(s, t, p, q + 2);
    }
    lemma_runs_agree(s, t, p, q);
    let j = digits_end(s, q);
    lemma_digits_end(s, q);
    if j + 1 <= s.len() {
        lemma_runs_agree(s, t, p, j + 1);
    }
    assert(s[q] == t[q]);
    assert(char_at(s, q + 1) == '=' <==> char_at(t, q + 1) == '=');
    assert(char_at(s, q + 1) == '/' <==> char_at(t, q + 1) == '/');
    assert(char_at(s, j) == '.' <==> char_at(t, j) == '.');
    assert(is_digit(char_at(s, j + 1)) <==> is_digit(char_at(t, j + 1)));
    assert(number_end(s, q) == number_end(t, q));
    let end = lex_step(s, q).0;
    assert forall|a: int, b: int| q <= a <= b <= end implies #[trigger] s.subrange(a, b)
        == t.subrange(a, b) by {
        assert forall|k: int| 0 <= k < b - a implies s.subrange(a, b)[k] == t.subrange(a, b)[k] by {
            assert(s[a + k] == t[a + k]);
        }
        assert(s.subrange(a, b) =~= t.subrange(a, b));
    }
    let c = s[q];
    if c == '"' {
        let qe = quote_end(s, q + 1);
        lemma_quote_end(s, q + 1);
        if qe < s.len() {
            assert(s.subrange(q + 1, qe) == t.subrange(q + 1, qe));
        }
        assert(lex_step(s, q) == lex_step(t, q));
    } else if is_digit(c) {
        assert(s.subrange(q, number_end(s, q)) == t.subrange(q, number_end(s, q)));
        assert(lex_step(s, q) == lex_step(t, q));
    } else if is_alpha(c) {
        assert(s.subrange(q, word_end(s, q + 1)) == t.subrange(q, word_end(s, q + 1)));
        assert(lex_step(s, q) == lex_step(t, q));
    } else {
        assert(lex_step(s, q) == lex_step(t, q));
    }
    lemma_lines_agree(s, t, p, q);
    lemma_lines_agree(s, t, p, s.len() as int);
}

/// After `p`, both texts scan alike.
proof fn lemma_scan_after(s: Seq<char>, t: Seq<char>, p: int, k: int)
    requires
        differ_at(s, t, p),
        p < k <= s.len(),
    ensures
        scan_from(s, k) == scan_from(t, k),
    decreases s.len() - k,
{
    lemma_lines_agree(s, t, p, s.len() as int);
    if k < s.len() {
        lemma_step_agrees(s, t, p, k);
        lemma_step_advances(s, k);
        lemma_scan_after(s, t, p, lex_step(s, k).0);
    }
}

/// The diagnostic for the unexpected character at `p`.
spec fn bad_char_report(s: Seq<char>, p: int) -> Seq<DiagnosticView> {
    seq![
        DiagnosticView {
            line: line_at(s, p),
            kind: ErrorKind::UnexpectedCharacter(s[p]),
            message: error_message(ErrorKind::UnexpectedCharacter(s[p])),
        },
    ]
}

/// The scan from `q` on, where it reaches `p`: the same tokens, and the same
/// diagnostics but for one more, the one of the step at `p`, at index `r`.
proof fn lemma_scan_until(s: Seq<char>, t: Seq<char>, p: int, q: int) -> (r: int)
    requires
        differ_at(s, t, p),
        starts_nothing(s[p]),
        t[p] == ' ',
        0 <= q <= p,
        reaches(s, q, p),
    ensures
        scan_from(s, q).0 == scan_from(t, q).0,
        0 <= r <= scan_from(t, q).1.len(),
        scan_from(s, q).1 == scan_from(t, q).1.subrange(0, r) + bad_char_report(s, p)
            + scan_from(t, q).1.subrange(r, scan_from(t, q).1.len() as int),
    decreases p - q,
{
    if q == p {
        lemma_scan_after(s, t, p, p + 1);
        let rest = scan_from(t, p + 1).1;
        assert(lex_step(s, p) == (p + 1, Outcome::Error(ErrorKind::UnexpectedCharacter(s[p]))));
        assert(lex_step(t, p) == (p + 1, Outcome::Skipped));
        assert(step_output(s, p).1 == bad_char_report(s, p));
        assert(scan_from(s, p).1 == bad_char_report(s, p) + rest);
        assert(scan_from(t, p).1 =~= rest);
        assert(scan_from(t, p).0 =~= scan_from(t, p + 1).0);
        assert(scan_from(s, p).0 =~= scan_from(s, p + 1).0);
        assert(rest.subrange(0, 0) + bad_char_report(s, p) + rest.subrange(0, rest.len() as int)
            =~= bad_char_report(s, p) + rest);
        0
    } else {
        lemma_step_advances(s, q);
        let end = lex_step(s, q).0;
        lemma_step_agrees(s, t, p, q);
        let r0 = lemma_scan_until(s, t, p, end);
        let here = step_output(s, q).1;
        let rest = scan_from(t, end).1;
        let whole = scan_from(t, q).1;
        let d = bad_char_report(s, p);
        assert(whole == here + rest);
        assert(scan_from(s, q).1 == here + scan_from(s, end).1);
        let r = here.len() + r0;
        assert(whole.subrange(0, r) =~= here + rest.subrange(0, r0));
        assert(whole.subrange(r, whole.len() as int) =~= rest.subrange(r0, rest.len() as int));
        assert(here + (rest.subrange(0, r0) + d + rest.subrange(r0, rest.len() as int)) =~= (here
            + rest.subrange(0, r0)) + d + rest.subrange(r0, rest.len() as int));
        assert(scan_from(s, q).0 == step_output(s, q).0 + scan_from(s, end).0);
        r
    }
}

/// An unexpected character hides no token: where the scan comes to a
/// character that starts no token, the source scans to the same tokens as
/// with a space in its place, and to the same diagnostics plus one, for that
/// character on its line, in source order.
pub proof fn unexpected_character_hides_no_token(a: Seq<char>, c: char, b: Seq<char>)
    requires
        starts_nothing(c),
        reaches(a + seq![c] + b, 0, a.len() as int),
    ensures
        tokens_of(a + seq![c] + b) == tokens_of(a + seq![' '] + b),
        exists|r: int|
            0 <= r <= diagnostics_of(a + seq![' '] + b).len() && diagnostics_of(a + seq![c] + b)
                == #[trigger] diagnostics_of(a + seq![' '] + b).subrange(0, r) + seq![
                DiagnosticView {
                    line: 1 + newlines(a),
                    kind: ErrorKind::UnexpectedCharacter(c),
                    message: error_message(ErrorKind::UnexpectedCharacter(c)),
                },
            ] + diagnostics_of(a + seq![' '] + b).subrange(
                r,
                diagnostics_of(a + seq![' '] + b).len() as int,
            ),
{
    let s = a + seq![c] + b;
    let t = a + seq![' '] + b;
    let p = a.len() as int;
    assert(s[p] == c);
    assert(t[p] == ' ');
    assert forall|i: int| 0 <= i < s.len() && i != p implies s[i] == t[i] by {
        if i < p {
            assert(s[i] == a[i]);
        } else {
            assert(s[i] == b[i - p - 1]);
        }
    }
    assert(differ_at(s, t, p));
    let r = lemma_scan_until(s, t, p, 0);
    assert(s.subrange(0, p) =~= a);
    let with_space = diagnostics_of(t);
    assert(0 <= r <= with_space.len() && diagnostics_of(s) == with_space.subrange(0, r) + seq![
        DiagnosticView {
            line: 1 + newlines(a),
            kind: ErrorKind::UnexpectedCharacter(c),
            message: error_message(ErrorKind::UnexpectedCharacter(c)),
        },
    ] + with_space.subrange(r, with_space.len() as int));
}

} // verus!
