//! The token model: the closed set of lexical categories that the lexer
//! produces and the parser consumes, together with its spec-level mirror.

use vstd::prelude::*;

verus! {

/// One lexical category.  Keyword variants exist for every reserved word,
/// several of which have no grammar rule yet; literal variants carry their
/// payload as raw text.
#[derive(Debug, Clone, PartialEq)]
pub enum TokenKind {
    // Keywords
    Init,
    If,
    Elif,
    Else,
    For,
    While,
    In,
    Try,
    Catch,
    Finally,
    Throw,
    Class,
    Extends,
    Fixed,
    Secure,
    Return,
    Range,
    Log,
    Get,
    From,
    // Symbols
    LeftParen,
    RightParen,
    LeftBrace,
    RightBrace,
    LeftBracket,
    RightBracket,
    Colon,
    Semicolon,
    Comma,
    Dot,
    Arrow,
    Star,
    Equal,
    DoubleEqual,
    NotEqual,
    Greater,
    Less,
    GreaterEqual,
    LessEqual,
    Plus,
    Minus,
    Slash,
    Percent,
    Question,
    TernaryColon,
    Ellipsis,
    // Literals
    Identifier(String),
    StringLiteral(String),
    NumberLiteral(String),
    BooleanLiteral(bool),
    TemplateString(String),
    Null,
    Undefined,
    // Comments (reserved, never produced by the lexer)
    Comment(String),
    // End of file
    EOF,
    Unknown(char),
}

/// Spec-level mirror of [`TokenKind`]: text payloads become `Seq<char>`.
pub ghost enum KindV {
    Init,
    If,
    Elif,
    Else,
    For,
    While,
    In,
    Try,
    Catch,
    Finally,
    Throw,
    Class,
    Extends,
    Fixed,
    Secure,
    Return,
    Range,
    Log,
    Get,
    From,
    LeftParen,
    RightParen,
    LeftBrace,
    RightBrace,
    LeftBracket,
    RightBracket,
    Colon,
    Semicolon,
    Comma,
    Dot,
    Arrow,
    Star,
    Equal,
    DoubleEqual,
    NotEqual,
    Greater,
    Less,
    GreaterEqual,
    LessEqual,
    Plus,
    Minus,
    Slash,
    Percent,
    Question,
    TernaryColon,
    Ellipsis,
    Identifier(Seq<char>),
    StringLiteral(Seq<char>),
    NumberLiteral(Seq<char>),
    BooleanLiteral(bool),
    TemplateString(Seq<char>),
    Null,
    Undefined,
    Comment(Seq<char>),
    EOF,
    Unknown(char),
}

impl View for TokenKind {
    type V = KindV;

    open spec fn view(&self) -> KindV {
        match self {
            TokenKind::Init => KindV::Init,
            TokenKind::If => KindV::If,
            TokenKind::Elif => KindV::Elif,
            TokenKind::Else => KindV::Else,
            TokenKind::For => KindV::For,
            TokenKind::While => KindV::While,
            TokenKind::In => KindV::In,
            TokenKind::Try => KindV::Try,
            TokenKind::Catch => KindV::Catch,
            TokenKind::Finally => KindV::Finally,
            TokenKind::Throw => KindV::Throw,
            TokenKind::Class => KindV::Class,
            TokenKind::Extends => KindV::Extends,
            TokenKind::Fixed => KindV::Fixed,
            TokenKind::Secure => KindV::Secure,
            TokenKind::Return => KindV::Return,
            TokenKind::Range => KindV::Range,
            TokenKind::Log => KindV::Log,
            TokenKind::Get => KindV::Get,
            TokenKind::From => KindV::From,
            TokenKind::LeftParen => KindV::LeftParen,
            TokenKind::RightParen => KindV::RightParen,
            TokenKind::LeftBrace => KindV::LeftBrace,
            TokenKind::RightBrace => KindV::RightBrace,
            TokenKind::LeftBracket => KindV::LeftBracket,
            TokenKind::RightBracket => KindV::RightBracket,
            TokenKind::Colon => KindV::Colon,
            TokenKind::Semicolon => KindV::Semicolon,
            TokenKind::Comma => KindV::Comma,
            TokenKind::Dot => KindV::Dot,
            TokenKind::Arrow => KindV::Arrow,
            TokenKind::Star => KindV::Star,
            TokenKind::Equal => KindV::Equal,
            TokenKind::DoubleEqual => KindV::DoubleEqual,
            TokenKind::NotEqual => KindV::NotEqual,
            TokenKind::Greater => KindV::Greater,
            TokenKind::Less => KindV::Less,
            TokenKind::GreaterEqual => KindV::GreaterEqual,
            TokenKind::LessEqual => KindV::LessEqual,
            TokenKind::Plus => KindV::Plus,
            TokenKind::Minus => KindV::Minus,
            TokenKind::Slash => KindV::Slash,
            TokenKind::Percent => KindV::Percent,
            TokenKind::Question => KindV::Question,
            TokenKind::TernaryColon => KindV::TernaryColon,
            TokenKind::Ellipsis => KindV::Ellipsis,
            TokenKind::Identifier(s) => KindV::Identifier(s@),
            TokenKind::StringLiteral(s) => KindV::StringLiteral(s@),
            TokenKind::NumberLiteral(s) => KindV::NumberLiteral(s@),
            TokenKind::BooleanLiteral(b) => KindV::BooleanLiteral(*b),
            TokenKind::TemplateString(s) => KindV::TemplateString(s@),
            TokenKind::Null => KindV::Null,
            TokenKind::Undefined => KindV::Undefined,
            TokenKind::Comment(s) => KindV::Comment(s@),
            TokenKind::EOF => KindV::EOF,
            TokenKind::Unknown(c) => KindV::Unknown(*c),
        }
    }
}

/// Clones a token kind, keeping its view.
pub fn clone_kind(k: &TokenKind) -> (r: TokenKind)
    ensures
        r@ == k@,
{
    match k {
        TokenKind::Init => TokenKind::Init,
        TokenKind::If => TokenKind::If,
        TokenKind::Elif => TokenKind::Elif,
        TokenKind::Else => TokenKind::Else,
        TokenKind::For => TokenKind::For,
        TokenKind::While => TokenKind::While,
        TokenKind::In => TokenKind::In,
        TokenKind::Try => TokenKind::Try,
        TokenKind::Catch => TokenKind::Catch,
        TokenKind::Finally => TokenKind::Finally,
        TokenKind::Throw => TokenKind::Throw,
        TokenKind::Class => TokenKind::Class,
        TokenKind::Extends => TokenKind::Extends,
        TokenKind::Fixed => TokenKind::Fixed,
        TokenKind::Secure => TokenKind::Secure,
        TokenKind::Return => TokenKind::Return,
        TokenKind::Range => TokenKind::Range,
        TokenKind::Log => TokenKind::Log,
        TokenKind::Get => TokenKind::Get,
        TokenKind::From => TokenKind::From,
        TokenKind::LeftParen => TokenKind::LeftParen,
        TokenKind::RightParen => TokenKind::RightParen,
        TokenKind::LeftBrace => TokenKind::LeftBrace,
        TokenKind::RightBrace => TokenKind::RightBrace,
        TokenKind::LeftBracket => TokenKind::LeftBracket,
        TokenKind::RightBracket => TokenKind::RightBracket,
        TokenKind::Colon => TokenKind::Colon,
        TokenKind::Semicolon => TokenKind::Semicolon,
        TokenKind::Comma => TokenKind::Comma,
        TokenKind::Dot => TokenKind::Dot,
        TokenKind::Arrow => TokenKind::Arrow,
        TokenKind::Star => TokenKind::Star,
        TokenKind::Equal => TokenKind::Equal,
        TokenKind::DoubleEqual => TokenKind::DoubleEqual,
        TokenKind::NotEqual => TokenKind::NotEqual,
        TokenKind::Greater => TokenKind::Greater,
        TokenKind::Less => TokenKind::Less,
        TokenKind::GreaterEqual => TokenKind::GreaterEqual,
        TokenKind::LessEqual => TokenKind::LessEqual,
        TokenKind::Plus => TokenKind::Plus,
        TokenKind::Minus => TokenKind::Minus,
        TokenKind::Slash => TokenKind::Slash,
        TokenKind::Percent => TokenKind::Percent,
        TokenKind::Question => TokenKind::Question,
        TokenKind::TernaryColon => TokenKind::TernaryColon,
        TokenKind::Ellipsis => TokenKind::Ellipsis,
        TokenKind::Identifier(s) => TokenKind::Identifier(s.clone()),
        TokenKind::StringLiteral(s) => TokenKind::StringLiteral(s.clone()),
        TokenKind::NumberLiteral(s) => TokenKind::NumberLiteral(s.clone()),
        TokenKind::BooleanLiteral(b) => TokenKind::BooleanLiteral(*b),
        TokenKind::TemplateString(s) => TokenKind::TemplateString(s.clone()),
        TokenKind::Null => TokenKind::Null,
        TokenKind::Undefined => TokenKind::Undefined,
        TokenKind::Comment(s) => TokenKind::Comment(s.clone()),
        TokenKind::EOF => TokenKind::EOF,
        TokenKind::Unknown(c) => TokenKind::Unknown(*c),
    }
}

/// A classified lexical unit with its source position (1-based line/column).
#[derive(Debug, Clone)]
pub struct Token {
    pub kind: TokenKind,
    pub line: usize,
    pub column: usize,
}

/// Spec-level mirror of [`Token`].
pub ghost struct TokenV {
    pub kind: KindV,
    pub line: int,
    pub column: int,
}

impl View for Token {
    type V = TokenV;

    open spec fn view(&self) -> TokenV {
        TokenV { kind: self.kind@, line: self.line as int, column: self.column as int }
    }
}

/// The deep view of a token sequence.
pub open spec fn tokens_view(ts: Seq<Token>) -> Seq<TokenV> {
    ts.map_values(|t: Token| t@)
}

} // verus!
