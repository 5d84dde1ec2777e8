use vstd::prelude::*;
use vstd::string::*;

use crate::token::{Kind, TokenType};

verus! {

/// The keyword table: the reserved words of the language and their kinds.
/// Only the whole text counts; case matters.
pub open spec fn keyword_kind(s: Seq<char>) -> Option<Kind> {
    if s == "and"@ {
        Some(Kind::And)
    } else if s == "class"@ {
        Some(Kind::Class)
    } else if s == "else"@ {
        Some(Kind::Else)
    } else if s == "false"@ {
        Some(Kind::False)
    } else if s == "for"@ {
        Some(Kind::For)
    } else if s == "fun"@ {
        Some(Kind::Fun)
    } else if s == "if"@ {
        Some(Kind::If)
    } else if s == "nil"@ {
        Some(Kind::Nil)
    } else if s == "or"@ {
        Some(Kind::Or)
    } else if s == "print"@ {
        Some(Kind::Print)
    } else if s == "return"@ {
        Some(Kind::Return)
    } else if s == "super"@ {
        Some(Kind::Super)
    } else if s == "this"@ {
        Some(Kind::This)
    } else if s == "true"@ {
        Some(Kind::True)
    } else if s == "var"@ {
        Some(Kind::Var)
    } else if s == "while"@ {
        Some(Kind::While)
    } else {
        None
    }
}

/// Whether two texts hold the same characters.
pub fn same_text(a: &str, b: &str) -> (r: bool)
    ensures
        r == (a@ == b@),
{
    let n = a.unicode_len();
    if n != b.unicode_len() {
        return false;
    }
    let mut i: usize = 0;
    while i < n
        invariant
            n == a@.len(),
            n == b@.len(),
            i <= n,
            a@.subrange(0, i as int) == b@.subrange(0, i as int),
        decreases n - i,
    {
        if a.get_char(i) != b.get_char(i) {
            assert(a@[i as int] != b@[i as int]);
            return false;
        }
        assert(a@.subrange(0, i + 1) =~= a@.subrange(0, i as int).push(a@[i as int]));
        assert(b@.subrange(0, i + 1) =~= b@.subrange(0, i as int).push(b@[i as int]));
        i = i + 1;
    }
    assert(a@ =~= a@.subrange(0, n as int));
    assert(b@ =~= b@.subrange(0, n as int));
    true
}

/// Looks `text` up in the keyword table.
pub fn keyword(text: &str) -> (r: Option<TokenType>)
    ensures
        match r {
            Some(k) => keyword_kind(text@) == Some(k@),
            None => keyword_kind(text@) is None,
        },
{
    if same_text(text, "and") {
        Some(TokenType::And)
    } else if same_text(text, "class") {
        Some(TokenType::Class)
    } else if same_text(text, "else") {
        Some(TokenType::Else)
    } else if same_text(text, "false") {
        Some(TokenType::False)
    } else if same_text(text, "for") {
        Some(TokenType::For)
    } else if same_text(text, "fun") {
        Some(TokenType::Fun)
    } else if same_text(text, "if") {
        Some(TokenType::If)
    } else if same_text(text, "nil") {
        Some(TokenType::Nil)
    } else if same_text(text, "or") {
        Some(TokenType::Or)
    } else if same_text(text, "print") {
        Some(TokenType::Print)
    } else if same_text(text, "return") {
        Some(TokenType::Return)
    } else if same_text(text, "super") {
        Some(TokenType::Super)
    } else if same_text(text, "this") {
        Some(TokenType::This)
    } else if same_text(text, "true") {
        Some(TokenType::True)
    } else if same_text(text, "var") {
        Some(TokenType::Var)
    } else if same_text(text, "while") {
        Some(TokenType::While)
    } else {
        None
    }
}

} // verus!
