use vstd::prelude::*;

verus! {

/// A lexical unit of the language.
#[derive(Debug, Clone)]
pub enum Token {
    Let,
    Print,
    Identifier(String),
    Number(i64),
    Equals,
    Plus,
    Minus,
    Star,
    Slash,
    Eq,
    NotEq,
    Less,
    LessEq,
    Greater,
    GreaterEq,
    LParen,
    RParen,
    Semicolon,
    EOF,
    Illegal(char),
    If,
    Else,
    LBrace,
    RBrace,
    While,
}

/// The mathematical value of a token: an identifier is its character sequence.
pub enum TokenV {
    Let,
    Print,
    Identifier(Seq<char>),
    Number(i64),
    Equals,
    Plus,
    Minus,
    Star,
    Slash,
    Eq,
    NotEq,
    Less,
    LessEq,
    Greater,
    GreaterEq,
    LParen,
    RParen,
    Semicolon,
    EOF,
    Illegal(char),
    If,
    Else,
    LBrace,
    RBrace,
    While,
}

impl View for Token {
    type V = TokenV;

    open spec fn view(&self) -> TokenV {
        match self {
            Token::Let => TokenV::Let,
            Token::Print => TokenV::Print,
            Token::Identifier(s) => TokenV::Identifier(s@),
            Token::Number(n) => TokenV::Number(*n),
            Token::Equals => TokenV::Equals,
            Token::Plus => TokenV::Plus,
            Token::Minus => TokenV::Minus,
            Token::Star => TokenV::Star,
            Token::Slash => TokenV::Slash,
            Token::Eq => TokenV::Eq,
            Token::NotEq => TokenV::NotEq,
            Token::Less => TokenV::Less,
            Token::LessEq => TokenV::LessEq,
            Token::Greater => TokenV::Greater,
            Token::GreaterEq => TokenV::GreaterEq,
            Token::LParen => TokenV::LParen,
            Token::RParen => TokenV::RParen,
            Token::Semicolon => TokenV::Semicolon,
            Token::EOF => TokenV::EOF,
            Token::Illegal(c) => TokenV::Illegal(*c),
            Token::If => TokenV::If,
            Token::Else => TokenV::Else,
            Token::LBrace => TokenV::LBrace,
            Token::RBrace => TokenV::RBrace,
            Token::While => TokenV::While,
        }
    }
}

impl Token {
    /// A copy of the token with the same value.
    pub fn duplicate(&self) -> (r: Token)
        ensures
            r@ == self@,
    {
        match self {
            Token::Let => Token::Let,
            Token::Print => Token::Print,
            Token::Identifier(s) => Token::Identifier(s.clone()),
            Token::Number(n) => Token::Number(*n),
            Token::Equals => Token::Equals,
            Token::Plus => Token::Plus,
            Token::Minus => Token::Minus,
            Token::Star => Token::Star,
            Token::Slash => Token::Slash,
            Token::Eq => Token::Eq,
            Token::NotEq => Token::NotEq,
            Token::Less => Token::Less,
            Token::LessEq => Token::LessEq,
            Token::Greater => Token::Greater,
            Token::GreaterEq => Token::GreaterEq,
            Token::LParen => Token::LParen,
            Token::RParen => Token::RParen,
            Token::Semicolon => Token::Semicolon,
            Token::EOF => Token::EOF,
            Token::Illegal(c) => Token::Illegal(*c),
            Token::If => Token::If,
            Token::Else => Token::Else,
            Token::LBrace => Token::LBrace,
            Token::RBrace => Token::RBrace,
            Token::While => Token::While,
        }
    }
}

impl PartialEq for Token {
    fn eq(&self, o: &Token) -> (r: bool) {
        match (self, o) {
            (Token::Identifier(a), Token::Identifier(b)) => *a == *b,
            (Token::Number(a), Token::Number(b)) => *a == *b,
            (Token::Illegal(a), Token::Illegal(b)) => *a == *b,
            (Token::Let, Token::Let) => true,
            (Token::Print, Token::Print) => true,
            (Token::Equals, Token::Equals) => true,
            (Token::Plus, Token::Plus) => true,
            (Token::Minus, Token::Minus) => true,
            (Token::Star, Token::Star) => true,
            (Token::Slash, Token::Slash) => true,
            (Token::Eq, Token::Eq) => true,
            (Token::NotEq, Token::NotEq) => true,
            (Token::Less, Token::Less) => true,
            (Token::LessEq, Token::LessEq) => true,
            (Token::Greater, Token::Greater) => true,
            (Token::GreaterEq, Token::GreaterEq) => true,
            (Token::LParen, Token::LParen) => true,
            (Token::RParen, Token::RParen) => true,
            (Token::Semicolon, Token::Semicolon) => true,
            (Token::EOF, Token::EOF) => true,
            (Token::If, Token::If) => true,
            (Token::Else, Token::Else) => true,
            (Token::LBrace, Token::LBrace) => true,
            (Token::RBrace, Token::RBrace) => true,
            (Token::While, Token::While) => true,
            _ => false,
        }
    }
}

impl vstd::std_specs::cmp::PartialEqSpecImpl for Token {
    open spec fn obeys_eq_spec() -> bool {
        true
    }

    open spec fn eq_spec(&self, o: &Token) -> bool {
        self@ == o@
    }
}

} // verus!
