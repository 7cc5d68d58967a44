//! Tokens of the source language.
use vstd::prelude::*;
use crate::text::str_eq;

verus! {

/// A token.
#[derive(Debug, Clone, PartialEq)]
pub enum Token {
    Fn,
    Let,
    Return,
    If,
    Else,
    While,
    Panic,
    Import,
    Export,
    True,
    False,
    Identifier(String),
    Number(i64),
    /// A float literal, carried as its decimal text.
    Float(String),
    String(String),
    LParen,
    RParen,
    LBrace,
    RBrace,
    Comma,
    Colon,
    Semicolon,
    Dot,
    Plus,
    Minus,
    Star,
    Slash,
    Percent,
    Assign,
    EqualEqual,
    NotEqual,
    Less,
    LessEqual,
    Greater,
    GreaterEqual,
    EOF,
}

/// A token with its text as a character sequence.
pub enum TokenView {
    Fn,
    Let,
    Return,
    If,
    Else,
    While,
    Panic,
    Import,
    Export,
    True,
    False,
    Identifier(Seq<char>),
    Number(i64),
    Float(Seq<char>),
    String(Seq<char>),
    LParen,
    RParen,
    LBrace,
    RBrace,
    Comma,
    Colon,
    Semicolon,
    Dot,
    Plus,
    Minus,
    Star,
    Slash,
    Percent,
    Assign,
    EqualEqual,
    NotEqual,
    Less,
    LessEqual,
    Greater,
    GreaterEqual,
    EOF,
}

impl Token {
    pub open spec fn view(&self) -> TokenView {
        match *self {
            Token::Fn => TokenView::Fn,
            Token::Let => TokenView::Let,
            Token::Return => TokenView::Return,
            Token::If => TokenView::If,
            Token::Else => TokenView::Else,
            Token::While => TokenView::While,
            Token::Panic => TokenView::Panic,
            Token::Import => TokenView::Import,
            Token::Export => TokenView::Export,
            Token::True => TokenView::True,
            Token::False => TokenView::False,
            Token::LParen => TokenView::LParen,
            Token::RParen => TokenView::RParen,
            Token::LBrace => TokenView::LBrace,
            Token::RBrace => TokenView::RBrace,
            Token::Comma => TokenView::Comma,
            Token::Colon => TokenView::Colon,
            Token::Semicolon => TokenView::Semicolon,
            Token::Dot => TokenView::Dot,
            Token::Plus => TokenView::Plus,
            Token::Minus => TokenView::Minus,
            Token::Star => TokenView::Star,
            Token::Slash => TokenView::Slash,
            Token::Percent => TokenView::Percent,
            Token::Assign => TokenView::Assign,
            Token::EqualEqual => TokenView::EqualEqual,
            Token::NotEqual => TokenView::NotEqual,
            Token::Less => TokenView::Less,
            Token::LessEqual => TokenView::LessEqual,
            Token::Greater => TokenView::Greater,
            Token::GreaterEqual => TokenView::GreaterEqual,
            Token::EOF => TokenView::EOF,
            Token::Identifier(s) => TokenView::Identifier(s@),
            Token::Number(n) => TokenView::Number(n),
            Token::Float(s) => TokenView::Float(s@),
            Token::String(s) => TokenView::String(s@),
        }
    }
}

/// The keyword spelled `text`, if it is one.
pub open spec fn keyword(text: Seq<char>) -> Option<TokenView> {
    if text == "fn"@ {
        Some(TokenView::Fn)
    } else if text == "let"@ {
        Some(TokenView::Let)
    } else if text == "return"@ {
        Some(TokenView::Return)
    } else if text == "if"@ {
        Some(TokenView::If)
    } else if text == "else"@ {
        Some(TokenView::Else)
    } else if text == "while"@ {
        Some(TokenView::While)
    } else if text == "panic"@ {
        Some(TokenView::Panic)
    } else if text == "import"@ {
        Some(TokenView::Import)
    } else if text == "export"@ {
        Some(TokenView::Export)
    } else if text == "true"@ {
        Some(TokenView::True)
    } else if text == "false"@ {
        Some(TokenView::False)
    } else {
        None
    }
}

/// The keyword token spelled `t`, if it is one.
pub fn keyword_token(t: &String) -> (r: Option<Token>)
    ensures
        match keyword(t@) {
            Some(k) => r matches Some(x) && x@ == k,
            None => r is None,
        },
{
    proof {
        reveal_strlit("fn");
        reveal_strlit("let");
        reveal_strlit("return");
        reveal_strlit("if");
        reveal_strlit("else");
        reveal_strlit("while");
        reveal_strlit("panic");
        reveal_strlit("import");
        reveal_strlit("export");
        reveal_strlit("true");
        reveal_strlit("false");
    }
    if str_eq(t.as_str(), "fn") {
        Some(Token::Fn)
    } else if str_eq(t.as_str(), "let") {
        Some(Token::Let)
    } else if str_eq(t.as_str(), "return") {
        Some(Token::Return)
    } else if str_eq(t.as_str(), "if") {
        Some(Token::If)
    } else if str_eq(t.as_str(), "else") {
        Some(Token::Else)
    } else if str_eq(t.as_str(), "while") {
        Some(Token::While)
    } else if str_eq(t.as_str(), "panic") {
        Some(Token::Panic)
    } else if str_eq(t.as_str(), "import") {
        Some(Token::Import)
    } else if str_eq(t.as_str(), "export") {
        Some(Token::Export)
    } else if str_eq(t.as_str(), "true") {
        Some(Token::True)
    } else if str_eq(t.as_str(), "false") {
        Some(Token::False)
    } else {
        None
    }
}

} // verus!
