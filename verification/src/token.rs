//! Tokens, their tag-only projection, and their mathematical view.

use vstd::prelude::*;
use vstd::pervasive::unreached;

verus! {

/// The smallest lexical unit of the language.
#[derive(Debug, Clone, PartialEq, Eq)]
pub enum Token {
    LParen,
    RParen,
    LBrace,
    RBrace,
    Comma,
    Semicolon,
    Plus,
    Minus,
    Asterisk,
    Slash,
    Bang,
    Equal,
    EqualEqual,
    BangEqual,
    Less,
    LessEqual,
    Greater,
    GreaterEqual,
    AndAnd,
    OrOr,
    Identifier(String),
    Int(i64),
    Fn,
    Let,
    If,
    Else,
    While,
    Return,
    True,
    False,
    /// A character that starts no token of the language.
    UnexpectedCharacter(char),
}

/// The tag of a [`Token`], without its payload.
#[derive(Debug, Clone, Copy, PartialEq, Eq, Structural)]
pub enum TokenKind {
    LParen,
    RParen,
    LBrace,
    RBrace,
    Comma,
    Semicolon,
    Plus,
    Minus,
    Asterisk,
    Slash,
    Bang,
    Equal,
    EqualEqual,
    BangEqual,
    Less,
    LessEqual,
    Greater,
    GreaterEqual,
    AndAnd,
    OrOr,
    Identifier,
    Int,
    Fn,
    Let,
    If,
    Else,
    While,
    Return,
    True,
    False,
    UnexpectedCharacter,
}

/// What a token carries besides its tag.
pub ghost enum Payload {
    Nothing,
    Name(Seq<char>),
    Value(i64),
    Character(char),
}

/// The mathematical view of a [`Token`]: its tag and its payload.
pub ghost struct Lexeme {
    pub kind: TokenKind,
    pub payload: Payload,
}

impl Lexeme {
    /// A lexeme without payload.
    pub open spec fn plain(kind: TokenKind) -> Lexeme {
        Lexeme { kind, payload: Payload::Nothing }
    }

    pub open spec fn identifier(name: Seq<char>) -> Lexeme {
        Lexeme { kind: TokenKind::Identifier, payload: Payload::Name(name) }
    }

    pub open spec fn integer(value: i64) -> Lexeme {
        Lexeme { kind: TokenKind::Int, payload: Payload::Value(value) }
    }

    pub open spec fn unexpected(c: char) -> Lexeme {
        Lexeme { kind: TokenKind::UnexpectedCharacter, payload: Payload::Character(c) }
    }

    /// The name of an identifier lexeme.
    pub open spec fn name(self) -> Seq<char> {
        match self.payload {
            Payload::Name(name) => name,
            _ => Seq::empty(),
        }
    }

    /// The value of an integer lexeme.
    pub open spec fn value(self) -> i64 {
        match self.payload {
            Payload::Value(value) => value,
            _ => 0,
        }
    }
}

impl Token {
    /// The tag of the token.
    pub open spec fn tag(&self) -> TokenKind {
        match self {
            Token::LParen => TokenKind::LParen,
            Token::RParen => TokenKind::RParen,
            Token::LBrace => TokenKind::LBrace,
            Token::RBrace => TokenKind::RBrace,
            Token::Comma => TokenKind::Comma,
            Token::Semicolon => TokenKind::Semicolon,
            Token::Plus => TokenKind::Plus,
            Token::Minus => TokenKind::Minus,
            Token::Asterisk => TokenKind::Asterisk,
            Token::Slash => TokenKind::Slash,
            Token::Bang => TokenKind::Bang,
            Token::Equal => TokenKind::Equal,
            Token::EqualEqual => TokenKind::EqualEqual,
            Token::BangEqual => TokenKind::BangEqual,
            Token::Less => TokenKind::Less,
            Token::LessEqual => TokenKind::LessEqual,
            Token::Greater => TokenKind::Greater,
            Token::GreaterEqual => TokenKind::GreaterEqual,
            Token::AndAnd => TokenKind::AndAnd,
            Token::OrOr => TokenKind::OrOr,
            Token::Identifier(_) => TokenKind::Identifier,
            Token::Int(_) => TokenKind::Int,
            Token::Fn => TokenKind::Fn,
            Token::Let => TokenKind::Let,
            Token::If => TokenKind::If,
            Token::Else => TokenKind::Else,
            Token::While => TokenKind::While,
            Token::Return => TokenKind::Return,
            Token::True => TokenKind::True,
            Token::False => TokenKind::False,
            Token::UnexpectedCharacter(_) => TokenKind::UnexpectedCharacter,
        }
    }

    /// The payload of the token: the name of an identifier, the value of an
    /// integer literal, the offending character, or nothing.
    pub open spec fn payload(&self) -> Payload {
        match self {
            Token::Identifier(name) => Payload::Name(name@),
            Token::Int(value) => Payload::Value(*value),
            Token::UnexpectedCharacter(c) => Payload::Character(*c),
            _ => Payload::Nothing,
        }
    }

    /// Projects the token onto its tag.
    pub fn kind(&self) -> (kind: TokenKind)
        ensures
            kind == self.tag(),
            kind == self@.kind,
    {
        match self {
            Token::LParen => TokenKind::LParen,
            Token::RParen => TokenKind::RParen,
            Token::LBrace => TokenKind::LBrace,
            Token::RBrace => TokenKind::RBrace,
            Token::Comma => TokenKind::Comma,
            Token::Semicolon => TokenKind::Semicolon,
            Token::Plus => TokenKind::Plus,
            Token::Minus => TokenKind::Minus,
            Token::Asterisk => TokenKind::Asterisk,
            Token::Slash => TokenKind::Slash,
            Token::Bang => TokenKind::Bang,
            Token::Equal => TokenKind::Equal,
            Token::EqualEqual => TokenKind::EqualEqual,
            Token::BangEqual => TokenKind::BangEqual,
            Token::Less => TokenKind::Less,
            Token::LessEqual => TokenKind::LessEqual,
            Token::Greater => TokenKind::Greater,
            Token::GreaterEqual => TokenKind::GreaterEqual,
            Token::AndAnd => TokenKind::AndAnd,
            Token::OrOr => TokenKind::OrOr,
            Token::Identifier(_) => TokenKind::Identifier,
            Token::Int(_) => TokenKind::Int,
            Token::Fn => TokenKind::Fn,
            Token::Let => TokenKind::Let,
            Token::If => TokenKind::If,
            Token::Else => TokenKind::Else,
            Token::While => TokenKind::While,
            Token::Return => TokenKind::Return,
            Token::True => TokenKind::True,
            Token::False => TokenKind::False,
            Token::UnexpectedCharacter(_) => TokenKind::UnexpectedCharacter,
        }
    }

    /// Takes the name out of an identifier token.
    pub fn as_identifier_unchecked(self) -> (name: String)
        requires
            self is Identifier,
        ensures
            name@ == self@.name(),
            self == Token::Identifier(name),
    {
        match self {
            Token::Identifier(identifier) => identifier,
            _ => unreached(),
        }
    }
}

impl View for Token {
    type V = Lexeme;

    open spec fn view(&self) -> Lexeme {
        Lexeme { kind: self.tag(), payload: self.payload() }
    }
}

} // verus!
