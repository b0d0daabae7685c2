//! The token alphabet of the language, with each token's stable numeric
//! identifier and printable content.

use vstd::prelude::*;
use crate::text::str_eq;

verus! {

/// The keywords of the language.
#[derive(Debug, PartialEq, Eq, Structural, Clone, Copy)]
pub enum Keyword {
    Int,
    If,
    Else,
    While,
    Return,
}

/// One lexical token. Identifiers and integer literals carry their exact
/// source lexeme; an invalid token carries the offending character.
#[derive(Debug, PartialEq, Clone)]
pub enum Token {
    Keywords(Keyword),
    Ident(String),
    Int(String),
    Plus,
    Minus,
    Times,
    LParam,
    RParam,
    LBrace,
    RBrace,
    Equal,
    Gt,
    Lt,
    Ge,
    Le,
    Ne,
    Semicolon,
    Comma,
    Assign,
    Invalid(char),
    EOF,
}

/// The mathematical value of a token: lexemes as character sequences.
pub enum TokenModel {
    Keywords(Keyword),
    Ident(Seq<char>),
    Int(Seq<char>),
    Plus,
    Minus,
    Times,
    LParam,
    RParam,
    LBrace,
    RBrace,
    Equal,
    Gt,
    Lt,
    Ge,
    Le,
    Ne,
    Semicolon,
    Comma,
    Assign,
    Invalid(char),
    EOF,
}

impl View for Token {
    type V = TokenModel;

    open spec fn view(&self) -> TokenModel {
        match self {
            Token::Keywords(k) => TokenModel::Keywords(*k),
            Token::Ident(s) => TokenModel::Ident(s@),
            Token::Int(s) => TokenModel::Int(s@),
            Token::Plus => TokenModel::Plus,
            Token::Minus => TokenModel::Minus,
            Token::Times => TokenModel::Times,
            Token::LParam => TokenModel::LParam,
            Token::RParam => TokenModel::RParam,
            Token::LBrace => TokenModel::LBrace,
            Token::RBrace => TokenModel::RBrace,
            Token::Equal => TokenModel::Equal,
            Token::Gt => TokenModel::Gt,
            Token::Lt => TokenModel::Lt,
            Token::Ge => TokenModel::Ge,
            Token::Le => TokenModel::Le,
            Token::Ne => TokenModel::Ne,
            Token::Semicolon => TokenModel::Semicolon,
            Token::Comma => TokenModel::Comma,
            Token::Assign => TokenModel::Assign,
            Token::Invalid(c) => TokenModel::Invalid(*c),
            Token::EOF => TokenModel::EOF,
        }
    }
}

/// The fixed numeric identifier of each token kind.
pub open spec fn sp_token_id(t: TokenModel) -> int {
    match t {
        TokenModel::Keywords(k) => match k {
            Keyword::Int => 1,
            Keyword::If => 2,
            Keyword::Else => 3,
            Keyword::While => 4,
            Keyword::Return => 5,
        },
        TokenModel::Ident(_) => 6,
        TokenModel::Int(_) => 7,
        TokenModel::Plus => 8,
        TokenModel::Minus => 9,
        TokenModel::Times => 10,
        TokenModel::LParam => 11,
        TokenModel::RParam => 12,
        TokenModel::LBrace => 13,
        TokenModel::RBrace => 14,
        TokenModel::Equal => 15,
        TokenModel::Gt => 16,
        TokenModel::Lt => 17,
        TokenModel::Ge => 21,
        TokenModel::Le => 22,
        TokenModel::Ne => 23,
        TokenModel::Semicolon => 18,
        TokenModel::Comma => 19,
        TokenModel::Assign => 20,
        TokenModel::EOF => 0,
        TokenModel::Invalid(_) => -1,
    }
}

/// The printable content of a token: the exact lexeme for identifiers and
/// integer literals, a fixed placeholder for every other kind.
pub open spec fn sp_token_content(t: TokenModel) -> Seq<char> {
    match t {
        TokenModel::Ident(s) => s,
        TokenModel::Int(s) => s,
        _ => "-"@,
    }
}

/// Whether two tokens are of the same kind: equal keywords, identifiers
/// with any lexemes, integer literals with any lexemes, equal punctuation,
/// invalid tokens with any characters, or both the end-of-input sentinel.
pub open spec fn sp_same_kind(a: TokenModel, b: TokenModel) -> bool {
    match (a, b) {
        (TokenModel::Keywords(k1), TokenModel::Keywords(k2)) => k1 == k2,
        (TokenModel::Ident(_), TokenModel::Ident(_)) => true,
        (TokenModel::Int(_), TokenModel::Int(_)) => true,
        (TokenModel::Plus, TokenModel::Plus) => true,
        (TokenModel::Minus, TokenModel::Minus) => true,
        (TokenModel::Times, TokenModel::Times) => true,
        (TokenModel::LParam, TokenModel::LParam) => true,
        (TokenModel::RParam, TokenModel::RParam) => true,
        (TokenModel::LBrace, TokenModel::LBrace) => true,
        (TokenModel::RBrace, TokenModel::RBrace) => true,
        (TokenModel::Equal, TokenModel::Equal) => true,
        (TokenModel::Gt, TokenModel::Gt) => true,
        (TokenModel::Lt, TokenModel::Lt) => true,
        (TokenModel::Ge, TokenModel::Ge) => true,
        (TokenModel::Le, TokenModel::Le) => true,
        (TokenModel::Ne, TokenModel::Ne) => true,
        (TokenModel::Semicolon, TokenModel::Semicolon) => true,
        (TokenModel::Comma, TokenModel::Comma) => true,
        (TokenModel::Assign, TokenModel::Assign) => true,
        (TokenModel::Invalid(_), TokenModel::Invalid(_)) => true,
        (TokenModel::EOF, TokenModel::EOF) => true,
        _ => false,
    }
}

/// The token-kind to numeric-identifier mapping is injective: two tokens
/// with the same identifier are of the same kind.
pub proof fn lemma_token_id_injective(a: TokenModel, b: TokenModel)
    requires
        sp_token_id(a) == sp_token_id(b),
    ensures
        sp_same_kind(a, b),
{
}

impl Token {
    /// The stable numeric identifier of this token's kind.
    pub fn id(&self) -> (r: i32)
        ensures
            r as int == sp_token_id(self@),
    {
        match self {
            Token::Keywords(keyword) => match keyword {
                Keyword::Int => 1,
                Keyword::If => 2,
                Keyword::Else => 3,
                Keyword::While => 4,
                Keyword::Return => 5,
            },
            Token::Ident(_) => 6,
            Token::Int(_) => 7,
            Token::Plus => 8,
            Token::Minus => 9,
            Token::Times => 10,
            Token::LParam => 11,
            Token::RParam => 12,
            Token::LBrace => 13,
            Token::RBrace => 14,
            Token::Equal => 15,
            Token::Gt => 16,
            Token::Lt => 17,
            Token::Ge => 21,
            Token::Le => 22,
            Token::Ne => 23,
            Token::Semicolon => 18,
            Token::Comma => 19,
            Token::Assign => 20,
            Token::EOF => 0,
            Token::Invalid(_) => -1,
        }
    }

    /// The printable content of this token.
    pub fn content(&self) -> (r: &str)
        ensures
            r@ == sp_token_content(self@),
    {
        match self {
            Token::Ident(s) => s.as_str(),
            Token::Int(s) => s.as_str(),
            _ => "-",
        }
    }
}

/// Whether a lexeme is one of the fixed keywords of the language.
pub open spec fn sp_is_keyword(s: Seq<char>) -> bool {
    s == "int"@ || s == "if"@ || s == "else"@ || s == "while"@ || s == "return"@
}

impl Keyword {
    /// Whether a lexeme matches one of the keywords, case-sensitively.
    pub fn is_keyword(s: &str) -> (r: bool)
        ensures
            r == sp_is_keyword(s@),
    {
        str_eq(s, "int") || str_eq(s, "if") || str_eq(s, "else") || str_eq(s, "while") || str_eq(
            s,
            "return",
        )
    }
}

} // verus!
