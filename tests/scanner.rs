use yali::diagnostic::{error, Diagnostic, ErrorKind};
use yali::keywords::{keyword, same_text};
use yali::scanner::{
    is_alpha_or_underscore, is_alphanumeric_or_underscore, is_ascii_digit, scan, Position,
    Scanner,
};
use yali::token::{Token, TokenType};

fn kinds(tokens: &[Token]) -> Vec<TokenType> {
    tokens.iter().map(|t| t.kind.clone()).collect()
}

fn lexemes(tokens: &[Token]) -> Vec<String> {
    tokens.iter().map(|t| t.lexeme.clone()).collect()
}

fn lines(tokens: &[Token]) -> Vec<usize> {
    tokens.iter().map(|t| t.line).collect()
}

#[test]
fn empty_source_gives_only_end_of_input() {
    let (tokens, diagnostics) = scan("");
    assert_eq!(kinds(&tokens), vec![TokenType::EndOfInput]);
    assert_eq!(tokens[0].lexeme, "");
    assert_eq!(tokens[0].line, 1);
    assert!(diagnostics.is_empty());
}

#[test]
fn end_of_input_is_last_and_only_once() {
    for source in ["", "(", "var x = 1;", "\"open", "@@", "a\nb\n", "// c", "1.2.3"] {
        let (tokens, _) = scan(source);
        let n = tokens.len();
        assert!(n >= 1);
        assert_eq!(tokens[n - 1].kind, TokenType::EndOfInput);
        assert_eq!(tokens[n - 1].lexeme, "");
        for t in &tokens[..n - 1] {
            assert_ne!(t.kind, TokenType::EndOfInput);
        }
    }
}

#[test]
fn lexemes_are_pieces_of_the_source() {
    let source = "var x = (1 + 2.5) // sum\n  print x;";
    let (tokens, diagnostics) = scan(source);
    assert!(diagnostics.is_empty());
    assert_eq!(
        lexemes(&tokens),
        vec!["var", "x", "=", "(", "1", "+", "2.5", ")", "print", "x", ";", ""]
    );
    let mut rest = source;
    for t in &tokens {
        let at = rest.find(t.lexeme.as_str()).unwrap();
        assert!(rest[..at].chars().all(|c| c == ' ' || c == '\n' || c == '/' || c.is_alphabetic()));
        rest = &rest[at + t.lexeme.len()..];
    }
}

#[test]
fn lines_count_newlines_including_those_in_strings() {
    let (tokens, diagnostics) = scan("a\n\"b\nc\"\nd\n");
    assert!(diagnostics.is_empty());
    assert_eq!(
        kinds(&tokens),
        vec![
            TokenType::Identifier,
            TokenType::String("b\nc".to_string()),
            TokenType::Identifier,
            TokenType::EndOfInput,
        ]
    );
    assert_eq!(lines(&tokens), vec![1, 2, 4, 5]);
}

#[test]
fn lines_never_decrease() {
    let (tokens, _) = scan("1\n2 3\n\n// x\n\"s\n\" 4 @\n5");
    let ls = lines(&tokens);
    for w in ls.windows(2) {
        assert!(w[0] <= w[1]);
    }
    assert_eq!(*ls.last().unwrap(), 7);
}

#[test]
fn bang_equal_is_one_token() {
    let (tokens, diagnostics) = scan("!=");
    assert!(diagnostics.is_empty());
    assert_eq!(kinds(&tokens), vec![TokenType::BangEqual, TokenType::EndOfInput]);
    assert_eq!(tokens[0].lexeme, "!=");
}

#[test]
fn one_and_two_character_operators() {
    let (tokens, diagnostics) = scan("! != = == < <= > >= / * - + ; , . ( ) { }");
    assert!(diagnostics.is_empty());
    assert_eq!(
        kinds(&tokens),
        vec![
            TokenType::Bang,
            TokenType::BangEqual,
            TokenType::Equal,
            TokenType::EqualEqual,
            TokenType::Less,
            TokenType::LessEqual,
            TokenType::Greater,
            TokenType::GreaterEqual,
            TokenType::Slash,
            TokenType::Star,
            TokenType::Minus,
            TokenType::Plus,
            TokenType::Semicolon,
            TokenType::Comma,
            TokenType::Dot,
            TokenType::LeftParen,
            TokenType::RightParen,
            TokenType::LeftBrace,
            TokenType::RightBrace,
            TokenType::EndOfInput,
        ]
    );
}

#[test]
fn longest_match_without_spaces() {
    let (tokens, _) = scan("a<=b==c!d");
    assert_eq!(
        kinds(&tokens),
        vec![
            TokenType::Identifier,
            TokenType::LessEqual,
            TokenType::Identifier,
            TokenType::EqualEqual,
            TokenType::Identifier,
            TokenType::Bang,
            TokenType::Identifier,
            TokenType::EndOfInput,
        ]
    );
}

#[test]
fn keyword_or_is_a_keyword() {
    let (tokens, _) = scan("or");
    assert_eq!(kinds(&tokens), vec![TokenType::Or, TokenType::EndOfInput]);
}

#[test]
fn orange_is_an_identifier() {
    let (tokens, _) = scan("orange");
    assert_eq!(kinds(&tokens), vec![TokenType::Identifier, TokenType::EndOfInput]);
    assert_eq!(tokens[0].lexeme, "orange");
}

#[test]
fn every_keyword_is_recognised() {
    let (tokens, diagnostics) = scan(
        "and class else false for fun if nil or print return super this true var while",
    );
    assert!(diagnostics.is_empty());
    assert_eq!(
        kinds(&tokens),
        vec![
            TokenType::And,
            TokenType::Class,
            TokenType::Else,
            TokenType::False,
            TokenType::For,
            TokenType::Fun,
            TokenType::If,
            TokenType::Nil,
            TokenType::Or,
            TokenType::Print,
            TokenType::Return,
            TokenType::Super,
            TokenType::This,
            TokenType::True,
            TokenType::Var,
            TokenType::While,
            TokenType::EndOfInput,
        ]
    );
}

#[test]
fn keywords_match_whole_text_and_case() {
    let (tokens, _) = scan("iffy If _if and_ x1_y");
    assert_eq!(
        kinds(&tokens),
        vec![
            TokenType::Identifier,
            TokenType::Identifier,
            TokenType::Identifier,
            TokenType::Identifier,
            TokenType::Identifier,
            TokenType::EndOfInput,
        ]
    );
    assert_eq!(lexemes(&tokens), vec!["iffy", "If", "_if", "and_", "x1_y", ""]);
}

#[test]
fn number_followed_by_bare_dot() {
    let (tokens, diagnostics) = scan("123.");
    assert!(diagnostics.is_empty());
    assert_eq!(
        kinds(&tokens),
        vec![TokenType::Number("123".to_string()), TokenType::Dot, TokenType::EndOfInput]
    );
    match &tokens[0].kind {
        TokenType::Number(text) => assert_eq!(text.parse::<f64>().unwrap(), 123.0),
        other => panic!("not a number: {:?}", other),
    }
}

#[test]
fn number_with_fraction_is_one_token() {
    let (tokens, _) = scan("3.25+7");
    assert_eq!(
        kinds(&tokens),
        vec![
            TokenType::Number("3.25".to_string()),
            TokenType::Plus,
            TokenType::Number("7".to_string()),
            TokenType::EndOfInput,
        ]
    );
    match &tokens[0].kind {
        TokenType::Number(text) => assert_eq!(text.parse::<f64>().unwrap(), 3.25),
        other => panic!("not a number: {:?}", other),
    }
}

#[test]
fn second_dot_ends_a_number() {
    let (tokens, _) = scan("1.2.3");
    assert_eq!(
        kinds(&tokens),
        vec![
            TokenType::Number("1.2".to_string()),
            TokenType::Dot,
            TokenType::Number("3".to_string()),
            TokenType::EndOfInput,
        ]
    );
}

#[test]
fn unterminated_string_is_reported_once() {
    let (tokens, diagnostics) = scan("\"abc");
    assert_eq!(kinds(&tokens), vec![TokenType::EndOfInput]);
    assert_eq!(diagnostics.len(), 1);
    assert_eq!(diagnostics[0].kind, ErrorKind::UnterminatedString);
    assert_eq!(diagnostics[0].message, "Unterminated string.");
    assert_eq!(diagnostics[0].line, 1);
}

#[test]
fn unterminated_string_is_reported_on_the_last_line() {
    let (tokens, diagnostics) = scan("x \"a\nb\nc");
    assert_eq!(kinds(&tokens), vec![TokenType::Identifier, TokenType::EndOfInput]);
    assert_eq!(diagnostics.len(), 1);
    assert_eq!(diagnostics[0].line, 3);
    assert_eq!(tokens[1].line, 3);
}

#[test]
fn string_contents_are_taken_literally() {
    let (tokens, diagnostics) = scan("\"a\\n\\\" b");
    assert!(diagnostics.is_empty());
    assert_eq!(tokens[0].kind, TokenType::String("a\\n\\".to_string()));
    assert_eq!(tokens[0].lexeme, "\"a\\n\\\"");
    assert_eq!(tokens[1].kind, TokenType::Identifier);
}

#[test]
fn unexpected_character_does_not_stop_the_pass() {
    let (tokens, diagnostics) = scan("@ x + 1;");
    assert_eq!(diagnostics.len(), 1);
    assert_eq!(diagnostics[0].kind, ErrorKind::UnexpectedCharacter('@'));
    assert_eq!(diagnostics[0].message, "Unexpected character @");
    assert_eq!(diagnostics[0].line, 1);
    assert_eq!(
        kinds(&tokens),
        vec![
            TokenType::Identifier,
            TokenType::Plus,
            TokenType::Number("1".to_string()),
            TokenType::Semicolon,
            TokenType::EndOfInput,
        ]
    );
}

#[test]
fn every_error_is_collected() {
    let (tokens, diagnostics) = scan("#\né ok \"no end");
    assert_eq!(diagnostics.len(), 3);
    assert_eq!(diagnostics[0].kind, ErrorKind::UnexpectedCharacter('#'));
    assert_eq!(diagnostics[0].line, 1);
    assert_eq!(diagnostics[1].kind, ErrorKind::UnexpectedCharacter('é'));
    assert_eq!(diagnostics[1].message, "Unexpected character é");
    assert_eq!(diagnostics[1].line, 2);
    assert_eq!(diagnostics[2].kind, ErrorKind::UnterminatedString);
    assert_eq!(kinds(&tokens), vec![TokenType::Identifier, TokenType::EndOfInput]);
    assert_eq!(tokens[0].lexeme, "ok");
}

#[test]
fn comment_is_skipped_and_newline_counts() {
    let (tokens, diagnostics) = scan("// comment\n+");
    assert!(diagnostics.is_empty());
    assert_eq!(kinds(&tokens), vec![TokenType::Plus, TokenType::EndOfInput]);
    assert_eq!(tokens[0].line, 2);
}

#[test]
fn comment_at_end_of_input() {
    let (tokens, _) = scan("1 // trailing");
    assert_eq!(
        kinds(&tokens),
        vec![TokenType::Number("1".to_string()), TokenType::EndOfInput]
    );
}

#[test]
fn whitespace_is_skipped() {
    let (tokens, diagnostics) = scan(" \t\r\n ;");
    assert!(diagnostics.is_empty());
    assert_eq!(kinds(&tokens), vec![TokenType::Semicolon, TokenType::EndOfInput]);
    assert_eq!(tokens[0].line, 2);
}

#[test]
fn scanner_runs_one_pass() {
    let scanner = Scanner::new("x");
    let (tokens, diagnostics) = scanner.scan_tokens();
    assert_eq!(kinds(&tokens), vec![TokenType::Identifier, TokenType::EndOfInput]);
    assert!(diagnostics.is_empty());
}

#[test]
fn cursor_starts_at_the_beginning() {
    let p = Position::new();
    assert_eq!(p, Position { line: 1, start: 0, current: 0 });
}

#[test]
fn error_records_line_kind_and_message() {
    let d = error(7, ErrorKind::UnexpectedCharacter('$'), "bad");
    assert_eq!(
        d,
        Diagnostic { line: 7, kind: ErrorKind::UnexpectedCharacter('$'), message: "bad".to_string() }
    );
}

#[test]
fn keyword_table_lookup() {
    assert_eq!(keyword("while"), Some(TokenType::While));
    assert_eq!(keyword("nil"), Some(TokenType::Nil));
    assert_eq!(keyword("While"), None);
    assert_eq!(keyword("whil"), None);
    assert_eq!(keyword(""), None);
}

#[test]
fn text_comparison() {
    assert!(same_text("abc", "abc"));
    assert!(same_text("", ""));
    assert!(!same_text("abc", "abd"));
    assert!(!same_text("ab", "abc"));
}

#[test]
fn character_classes() {
    assert!(is_alpha_or_underscore('_'));
    assert!(is_alpha_or_underscore('Q'));
    assert!(!is_alpha_or_underscore('7'));
    assert!(!is_alpha_or_underscore('é'));
    assert!(is_alphanumeric_or_underscore('7'));
    assert!(!is_alphanumeric_or_underscore('-'));
    assert!(is_ascii_digit('0'));
    assert!(is_ascii_digit('9'));
    assert!(!is_ascii_digit('a'));
}

#[test]
fn unexpected_first_character_leaves_the_rest_unchanged() {
    let rest = "x = \"s\" 1.5 // c\n!";
    let (alone, alone_diagnostics) = scan(rest);
    let with_bad = format!("${}", rest);
    let (tokens, diagnostics) = scan(&with_bad);
    assert_eq!(tokens, alone);
    assert_eq!(diagnostics.len(), alone_diagnostics.len() + 1);
    assert_eq!(diagnostics[0].kind, ErrorKind::UnexpectedCharacter('$'));
    assert_eq!(diagnostics[0].line, 1);
}

#[test]
fn unexpected_character_in_the_middle_hides_no_token() {
    let (tokens, diagnostics) = scan("a = 1;\nb#c != \"s\"");
    let (spaced, spaced_diagnostics) = scan("a = 1;\nb c != \"s\"");
    assert_eq!(tokens, spaced);
    assert!(spaced_diagnostics.is_empty());
    assert_eq!(diagnostics.len(), 1);
    assert_eq!(diagnostics[0].kind, ErrorKind::UnexpectedCharacter('#'));
    assert_eq!(diagnostics[0].line, 2);
}

#[test]
fn text_between_tokens_is_whitespace_comments_or_errors() {
    let source = "  x // note\n\t@ y \"tail";
    let (tokens, diagnostics) = scan(source);
    assert_eq!(lexemes(&tokens), vec!["x", "y", ""]);
    assert_eq!(diagnostics.len(), 2);
    assert_eq!(diagnostics[0].kind, ErrorKind::UnexpectedCharacter('@'));
    assert_eq!(diagnostics[1].kind, ErrorKind::UnterminatedString);
}

#[test]
fn newline_in_whitespace_and_in_string_each_count_once() {
    let (tokens, _) = scan("\n\"a\n\nb\"\n\nz");
    assert_eq!(lines(&tokens), vec![2, 6, 6]);
}
