use vstd::prelude::*;

verus! {

/// The class of a token. `String` holds the literal's contents without the
/// quotes; `Number` holds the decimal numeral exactly as written.
#[derive(Debug, Clone, PartialEq)]
pub enum TokenType {
    // Single-character tokens.
    LeftParen,
    RightParen,
    LeftBrace,
    RightBrace,
    Comma,
    Dot,
    Minus,
    Plus,
    Semicolon,
    Slash,
    Star,
    // One or two character tokens.
    Bang,
    BangEqual,
    Equal,
    EqualEqual,
    Greater,
    GreaterEqual,
    Less,
    LessEqual,
    // Literals.
    Identifier,
    String(String),
    Number(String),
    // Keywords.
    And,
    Class,
    Else,
    False,
    Fun,
    For,
    If,
    Nil,
    Or,
    Print,
    Return,
    Super,
    This,
    True,
    Var,
    While,
    EndOfInput,
}

/// The mathematical counterpart of `TokenType`: the payloads are seen as
/// character sequences.
pub enum Kind {
    LeftParen,
    RightParen,
    LeftBrace,
    RightBrace,
    Comma,
    Dot,
    Minus,
    Plus,
    Semicolon,
    Slash,
    Star,
    Bang,
    BangEqual,
    Equal,
    EqualEqual,
    Greater,
    GreaterEqual,
    Less,
    LessEqual,
    Identifier,
    String(Seq<char>),
    Number(Seq<char>),
    And,
    Class,
    Else,
    False,
    Fun,
    For,
    If,
    Nil,
    Or,
    Print,
    Return,
    Super,
    This,
    True,
    Var,
    While,
    EndOfInput,
}

impl View for TokenType {
    type V = Kind;

    open spec fn view(&self) -> Kind {
        match self {
            TokenType::LeftParen => Kind::LeftParen,
            TokenType::RightParen => Kind::RightParen,
            TokenType::LeftBrace => Kind::LeftBrace,
            TokenType::RightBrace => Kind::RightBrace,
            TokenType::Comma => Kind::Comma,
            TokenType::Dot => Kind::Dot,
            TokenType::Minus => Kind::Minus,
            TokenType::Plus => Kind::Plus,
            TokenType::Semicolon => Kind::Semicolon,
            TokenType::Slash => Kind::Slash,
            TokenType::Star => Kind::Star,
            TokenType::Bang => Kind::Bang,
            TokenType::BangEqual => Kind::BangEqual,
            TokenType::Equal => Kind::Equal,
            TokenType::EqualEqual => Kind::EqualEqual,
            TokenType::Greater => Kind::Greater,
            TokenType::GreaterEqual => Kind::GreaterEqual,
            TokenType::Less => Kind::Less,
            TokenType::LessEqual => Kind::LessEqual,
            TokenType::Identifier => Kind::Identifier,
            TokenType::String(s) => Kind::String(s@),
            TokenType::Number(s) => Kind::Number(s@),
            TokenType::And => Kind::And,
            TokenType::Class => Kind::Class,
            TokenType::Else => Kind::Else,
            TokenType::False => Kind::False,
            TokenType::Fun => Kind::Fun,
            TokenType::For => Kind::For,
            TokenType::If => Kind::If,
            TokenType::Nil => Kind::Nil,
            TokenType::Or => Kind::Or,
            TokenType::Print => Kind::Print,
            TokenType::Return => Kind::Return,
            TokenType::Super => Kind::Super,
            TokenType::This => Kind::This,
            TokenType::True => Kind::True,
            TokenType::Var => Kind::Var,
            TokenType::While => Kind::While,
            TokenType::EndOfInput => Kind::EndOfInput,
        }
    }
}

/// A classified piece of source text: its kind, the exact text it was
/// matched from, and the 1-based line of its first character.
#[derive(Debug, Clone, PartialEq)]
pub struct Token {
    pub kind: TokenType,
    pub lexeme: String,
    pub line: usize,
}

/// The mathematical counterpart of `Token`.
pub struct TokenView {
    pub kind: Kind,
    pub lexeme: Seq<char>,
    pub line: nat,
}

impl View for Token {
    type V = TokenView;

    open spec fn view(&self) -> TokenView {
        TokenView { kind: self.kind@, lexeme: self.lexeme@, line: self.line as nat }
    }
}

/// The views of a sequence of tokens.
pub open spec fn token_views(ts: Seq<Token>) -> Seq<TokenView> {
    ts.map_values(|t: Token| t@)
}

} // verus!
