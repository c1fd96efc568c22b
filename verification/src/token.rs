//! Tokens of Mest source text.
use vstd::prelude::*;
use crate::text::{int_decimal, i64_text};

verus! {

/// A token. An identifier and a floating-point literal keep their text; an
/// integer literal its value.
#[derive(Debug, Clone, PartialEq, Eq)]
pub enum Token {
    If,
    Then,
    Else,
    Rec,
    Let,
    In,
    True,
    False,
    Match,
    And,
    Type,
    Ident(String),
    Float(String),
    Int(i64),
    EqEq,
    BangEq,
    LtEq,
    GtEq,
    Lt,
    Gt,
    AndAnd,
    PipePipe,
    Bang,
    Plus,
    Minus,
    Star,
    Slash,
    Caret,
    Pipe,
    Eq,
    LParen,
    RParen,
    Comma,
    StrongArrow,
    WhiteSpace,
    Error,
}

/// The value of a token.
pub enum SToken {
    If,
    Then,
    Else,
    Rec,
    Let,
    In,
    True,
    False,
    Match,
    And,
    Type,
    Ident(Seq<char>),
    Float(Seq<char>),
    Int(int),
    EqEq,
    BangEq,
    LtEq,
    GtEq,
    Lt,
    Gt,
    AndAnd,
    PipePipe,
    Bang,
    Plus,
    Minus,
    Star,
    Slash,
    Caret,
    Pipe,
    Eq,
    LParen,
    RParen,
    Comma,
    StrongArrow,
    WhiteSpace,
    Error,
}

impl View for Token {
    type V = SToken;

    open spec fn view(&self) -> SToken {
        match self {
            Token::If => SToken::If,
            Token::Then => SToken::Then,
            Token::Else => SToken::Else,
            Token::Rec => SToken::Rec,
            Token::Let => SToken::Let,
            Token::In => SToken::In,
            Token::True => SToken::True,
            Token::False => SToken::False,
            Token::Match => SToken::Match,
            Token::And => SToken::And,
            Token::Type => SToken::Type,
            Token::Ident(s) => SToken::Ident(s@),
            Token::Float(s) => SToken::Float(s@),
            Token::Int(n) => SToken::Int(*n as int),
            Token::EqEq => SToken::EqEq,
            Token::BangEq => SToken::BangEq,
            Token::LtEq => SToken::LtEq,
            Token::GtEq => SToken::GtEq,
            Token::Lt => SToken::Lt,
            Token::Gt => SToken::Gt,
            Token::AndAnd => SToken::AndAnd,
            Token::PipePipe => SToken::PipePipe,
            Token::Bang => SToken::Bang,
            Token::Plus => SToken::Plus,
            Token::Minus => SToken::Minus,
            Token::Star => SToken::Star,
            Token::Slash => SToken::Slash,
            Token::Caret => SToken::Caret,
            Token::Pipe => SToken::Pipe,
            Token::Eq => SToken::Eq,
            Token::LParen => SToken::LParen,
            Token::RParen => SToken::RParen,
            Token::Comma => SToken::Comma,
            Token::StrongArrow => SToken::StrongArrow,
            Token::WhiteSpace => SToken::WhiteSpace,
            Token::Error => SToken::Error,
        }
    }
}

/// How a token is written (a floating-point literal as its text).
pub open spec fn token_text(t: SToken) -> Seq<char> {
    match t {
        SToken::If => "if"@,
        SToken::Then => "then"@,
        SToken::Else => "else"@,
        SToken::Rec => "rec"@,
        SToken::Let => "let"@,
        SToken::In => "in"@,
        SToken::True => "true"@,
        SToken::False => "false"@,
        SToken::Match => "match"@,
        SToken::And => "and"@,
        SToken::Type => "type"@,
        SToken::Ident(s) => s,
        SToken::Float(s) => s,
        SToken::Int(n) => int_decimal(n),
        SToken::EqEq => "=="@,
        SToken::BangEq => "!="@,
        SToken::LtEq => "<="@,
        SToken::GtEq => ">="@,
        SToken::Lt => "<"@,
        SToken::Gt => ">"@,
        SToken::AndAnd => "&&"@,
        SToken::PipePipe => "||"@,
        SToken::Bang => "!"@,
        SToken::Plus => "+"@,
        SToken::Minus => "-"@,
        SToken::Star => "*"@,
        SToken::Slash => "/"@,
        SToken::Caret => "^"@,
        SToken::Pipe => "|"@,
        SToken::Eq => "="@,
        SToken::LParen => "("@,
        SToken::RParen => ")"@,
        SToken::Comma => ","@,
        SToken::StrongArrow => "=>"@,
        SToken::WhiteSpace => "<whitespace>"@,
        SToken::Error => "<error>"@,
    }
}

impl Token {
    /// How this token is written.
    pub fn to_text(&self) -> (s: String)
        ensures
            s@ == token_text(self@),
    {
        match self {
            Token::If => String::from_str("if"),
            Token::Then => String::from_str("then"),
            Token::Else => String::from_str("else"),
            Token::Rec => String::from_str("rec"),
            Token::Let => String::from_str("let"),
            Token::In => String::from_str("in"),
            Token::True => String::from_str("true"),
            Token::False => String::from_str("false"),
            Token::Match => String::from_str("match"),
            Token::And => String::from_str("and"),
            Token::Type => String::from_str("type"),
            Token::Ident(s) => s.clone(),
            Token::Float(s) => s.clone(),
            Token::Int(n) => i64_text(*n),
            Token::EqEq => String::from_str("=="),
            Token::BangEq => String::from_str("!="),
            Token::LtEq => String::from_str("<="),
            Token::GtEq => String::from_str(">="),
            Token::Lt => String::from_str("<"),
            Token::Gt => String::from_str(">"),
            Token::AndAnd => String::from_str("&&"),
            Token::PipePipe => String::from_str("||"),
            Token::Bang => String::from_str("!"),
            Token::Plus => String::from_str("+"),
            Token::Minus => String::from_str("-"),
            Token::Star => String::from_str("*"),
            Token::Slash => String::from_str("/"),
            Token::Caret => String::from_str("^"),
            Token::Pipe => String::from_str("|"),
            Token::Eq => String::from_str("="),
            Token::LParen => String::from_str("("),
            Token::RParen => String::from_str(")"),
            Token::Comma => String::from_str(","),
            Token::StrongArrow => String::from_str("=>"),
            Token::WhiteSpace => String::from_str("<whitespace>"),
            Token::Error => String::from_str("<error>"),
        }
    }
}

} // verus!
