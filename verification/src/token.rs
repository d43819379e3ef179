//! Lexical tokens and the keyword table.

use vstd::prelude::*;
use crate::text::str_eq;

verus! {

/// A classified lexical unit. Identifiers and integer literals carry their
/// source text; every other kind is fixed punctuation or a keyword.
#[derive(Debug, PartialEq, Eq)]
pub enum Token {
    /* Identifiers and literals */
    Ident(String),
    Int(String),
    /* Operators */
    Assign,
    Plus,
    Minus,
    Bang,
    Asterisk,
    Slash,
    LessThan,
    GreaterThan,
    Equal,
    NotEqual,
    /* Delimiters */
    Comma,
    Semicolon,
    OpenParen,
    CloseParen,
    OpenCurly,
    CloseCurly,
    /* Keywords */
    Let,
    Function,
    If,
    Else,
    Return,
    True,
    False,
    /* Endings */
    Eof,
    Illegal,
}

/// The mathematical value of a [`Token`]: the same variants, with the text of
/// identifiers and integer literals as a sequence of characters.
pub ghost enum TokenView {
    Ident(Seq<char>),
    Int(Seq<char>),
    Assign,
    Plus,
    Minus,
    Bang,
    Asterisk,
    Slash,
    LessThan,
    GreaterThan,
    Equal,
    NotEqual,
    Comma,
    Semicolon,
    OpenParen,
    CloseParen,
    OpenCurly,
    CloseCurly,
    Let,
    Function,
    If,
    Else,
    Return,
    True,
    False,
    Eof,
    Illegal,
}

impl View for Token {
    type V = TokenView;

    open spec fn view(&self) -> TokenView {
        match self {
            Token::Ident(s) => TokenView::Ident(s@),
            Token::Int(s) => TokenView::Int(s@),
            Token::Assign => TokenView::Assign,
            Token::Plus => TokenView::Plus,
            Token::Minus => TokenView::Minus,
            Token::Bang => TokenView::Bang,
            Token::Asterisk => TokenView::Asterisk,
            Token::Slash => TokenView::Slash,
            Token::LessThan => TokenView::LessThan,
            Token::GreaterThan => TokenView::GreaterThan,
            Token::Equal => TokenView::Equal,
            Token::NotEqual => TokenView::NotEqual,
            Token::Comma => TokenView::Comma,
            Token::Semicolon => TokenView::Semicolon,
            Token::OpenParen => TokenView::OpenParen,
            Token::CloseParen => TokenView::CloseParen,
            Token::OpenCurly => TokenView::OpenCurly,
            Token::CloseCurly => TokenView::CloseCurly,
            Token::Let => TokenView::Let,
            Token::Function => TokenView::Function,
            Token::If => TokenView::If,
            Token::Else => TokenView::Else,
            Token::Return => TokenView::Return,
            Token::True => TokenView::True,
            Token::False => TokenView::False,
            Token::Eof => TokenView::Eof,
            Token::Illegal => TokenView::Illegal,
        }
    }
}

impl TokenView {
    /// Two tokens are of the same kind when they are the same variant; the
    /// text carried by identifiers and integer literals is not compared.
    pub open spec fn same_kind(self, other: TokenView) -> bool {
        match (self, other) {
            (TokenView::Ident(_), TokenView::Ident(_)) => true,
            (TokenView::Int(_), TokenView::Int(_)) => true,
            (a, b) => a == b,
        }
    }

    /// The text carried by an identifier or an integer literal.
    pub open spec fn text(self) -> Seq<char>
        recommends
            self is Ident || self is Int,
    {
        match self {
            TokenView::Ident(s) => s,
            TokenView::Int(s) => s,
            _ => Seq::empty(),
        }
    }
}

/// The keyword table: a word is one of the seven keywords or else an
/// identifier carrying the word itself.
pub open spec fn lookup_identifier(word: Seq<char>) -> TokenView {
    if word == "let"@ {
        TokenView::Let
    } else if word == "fn"@ {
        TokenView::Function
    } else if word == "if"@ {
        TokenView::If
    } else if word == "else"@ {
        TokenView::Else
    } else if word == "return"@ {
        TokenView::Return
    } else if word == "true"@ {
        TokenView::True
    } else if word == "false"@ {
        TokenView::False
    } else {
        TokenView::Ident(word)
    }
}

impl Default for Token {
    /// The end-of-input token.
    fn default() -> (token: Token)
        ensures
            token@ == TokenView::Eof,
    {
        Token::Eof
    }
}

impl Clone for Token {
    fn clone(&self) -> (r: Token)
        ensures
            r@ == self@,
    {
        match self {
            Token::Ident(s) => Token::Ident(s.clone()),
            Token::Int(s) => Token::Int(s.clone()),
            Token::Assign => Token::Assign,
            Token::Plus => Token::Plus,
            Token::Minus => Token::Minus,
            Token::Bang => Token::Bang,
            Token::Asterisk => Token::Asterisk,
            Token::Slash => Token::Slash,
            Token::LessThan => Token::LessThan,
            Token::GreaterThan => Token::GreaterThan,
            Token::Equal => Token::Equal,
            Token::NotEqual => Token::NotEqual,
            Token::Comma => Token::Comma,
            Token::Semicolon => Token::Semicolon,
            Token::OpenParen => Token::OpenParen,
            Token::CloseParen => Token::CloseParen,
            Token::OpenCurly => Token::OpenCurly,
            Token::CloseCurly => Token::CloseCurly,
            Token::Let => Token::Let,
            Token::Function => Token::Function,
            Token::If => Token::If,
            Token::Else => Token::Else,
            Token::Return => Token::Return,
            Token::True => Token::True,
            Token::False => Token::False,
            Token::Eof => Token::Eof,
            Token::Illegal => Token::Illegal,
        }
    }
}

impl Token {
    /// Whether `self` and `token` are of the same kind.
    pub fn is(&self, token: &Token) -> (r: bool)
        ensures
            r == self@.same_kind(token@),
    {
        match (self, token) {
            (Token::Ident(_), Token::Ident(_)) => true,
            (Token::Int(_), Token::Int(_)) => true,
            (Token::Assign, Token::Assign) => true,
            (Token::Plus, Token::Plus) => true,
            (Token::Minus, Token::Minus) => true,
            (Token::Bang, Token::Bang) => true,
            (Token::Asterisk, Token::Asterisk) => true,
            (Token::Slash, Token::Slash) => true,
            (Token::LessThan, Token::LessThan) => true,
            (Token::GreaterThan, Token::GreaterThan) => true,
            (Token::Equal, Token::Equal) => true,
            (Token::NotEqual, Token::NotEqual) => true,
            (Token::Comma, Token::Comma) => true,
            (Token::Semicolon, Token::Semicolon) => true,
            (Token::OpenParen, Token::OpenParen) => true,
            (Token::CloseParen, Token::CloseParen) => true,
            (Token::OpenCurly, Token::OpenCurly) => true,
            (Token::CloseCurly, Token::CloseCurly) => true,
            (Token::Let, Token::Let) => true,
            (Token::Function, Token::Function) => true,
            (Token::If, Token::If) => true,
            (Token::Else, Token::Else) => true,
            (Token::Return, Token::Return) => true,
            (Token::True, Token::True) => true,
            (Token::False, Token::False) => true,
            (Token::Eof, Token::Eof) => true,
            (Token::Illegal, Token::Illegal) => true,
            _ => false,
        }
    }

    /// The text of an identifier or an integer literal.
    pub fn literal(&self) -> (r: &str)
        requires
            self is Ident || self is Int,
        ensures
            r@ == self@.text(),
    {
        match self {
            Token::Ident(s) => s.as_str(),
            Token::Int(s) => s.as_str(),
            _ => "",
        }
    }

    /// Classifies a word, a non-empty run of letters and underscores, as a
    /// keyword or an identifier.
    pub fn from_word(word: &str) -> (r: Token)
        ensures
            r@ == lookup_identifier(word@),
    {
        if str_eq(word, "let") {
            Token::Let
        } else if str_eq(word, "fn") {
            Token::Function
        } else if str_eq(word, "if") {
            Token::If
        } else if str_eq(word, "else") {
            Token::Else
        } else if str_eq(word, "return") {
            Token::Return
        } else if str_eq(word, "true") {
            Token::True
        } else if str_eq(word, "false") {
            Token::False
        } else {
            Token::Ident(word.to_owned())
        }
    }
}

} // verus!
