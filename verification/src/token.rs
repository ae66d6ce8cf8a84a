//! Tokens: what the lexer hands to the compiler.
use vstd::prelude::*;
use vstd::string::*;
use crate::parse_rule::{Handler, ParseRule};
use crate::precedence::Precedence;

verus! {

/// The kinds of token. An identifier carries its name, a string literal its
/// contents without the quotes, a number literal its digits as written, and
/// an error its message. `Eof` is what the compiler sees once the input is
/// used up.
#[derive(Debug, PartialEq, Clone)]
pub enum TokenType {
    // One-character tokens
    LeftParen,
    RightParen,
    LeftBrace,
    RightBrace,
    Comma,
    Dot,
    Minus,
    Plus,
    Semicolon,
    Slash,
    Star,
    Mod,
    BitwiseAnd,
    BitwiseOr,
    // One- or two-character tokens
    Bang,
    BangEqual,
    Equal,
    EqualEqual,
    Greater,
    GreaterEqual,
    Less,
    LessEqual,
    LogicalAnd,
    LogicalOr,
    // Literals
    Identifier(String),
    String(String),
    Number(String),
    // Keywords
    And,
    Class,
    Else,
    False,
    For,
    Fn,
    If,
    Nil,
    Or,
    Print,
    Return,
    Super,
    This,
    True,
    Var,
    While,
    // Other
    Error(String),
    Eof,
}

pub ghost enum TokenTypeView {
    LeftParen,
    RightParen,
    LeftBrace,
    RightBrace,
    Comma,
    Dot,
    Minus,
    Plus,
    Semicolon,
    Slash,
    Star,
    Mod,
    BitwiseAnd,
    BitwiseOr,
    Bang,
    BangEqual,
    Equal,
    EqualEqual,
    Greater,
    GreaterEqual,
    Less,
    LessEqual,
    LogicalAnd,
    LogicalOr,
    Identifier(Seq<char>),
    String(Seq<char>),
    Number(Seq<char>),
    And,
    Class,
    Else,
    False,
    For,
    Fn,
    If,
    Nil,
    Or,
    Print,
    Return,
    Super,
    This,
    True,
    Var,
    While,
    Error(Seq<char>),
    Eof,
}

impl TokenTypeView {
    /// The routine that compiles an expression starting with this token.
    pub open spec fn prefix(self) -> Option<Handler> {
        match self {
            TokenTypeView::LeftParen => Some(Handler::Grouping),
            TokenTypeView::Minus | TokenTypeView::Bang => Some(Handler::Unary),
            TokenTypeView::Identifier(_) => Some(Handler::Variable),
            TokenTypeView::String(_) => Some(Handler::String),
            TokenTypeView::Number(_) => Some(Handler::Number),
            TokenTypeView::False | TokenTypeView::Nil | TokenTypeView::True => Some(
                Handler::Literal,
            ),
            _ => None,
        }
    }

    /// How tightly the token binds as an infix operator; `Lowest` for a token
    /// that is none.
    pub open spec fn precedence(self) -> Precedence {
        match self {
            TokenTypeView::Slash | TokenTypeView::Star | TokenTypeView::Mod => Precedence::Factor,
            TokenTypeView::Minus
            | TokenTypeView::Plus
            | TokenTypeView::BitwiseAnd
            | TokenTypeView::BitwiseOr
            | TokenTypeView::LogicalAnd
            | TokenTypeView::LogicalOr => Precedence::Term,
            TokenTypeView::EqualEqual
            | TokenTypeView::Greater
            | TokenTypeView::GreaterEqual
            | TokenTypeView::Less
            | TokenTypeView::LessEqual => Precedence::Comparison,
            TokenTypeView::BangEqual => Precedence::Equality,
            _ => Precedence::Lowest,
        }
    }

    /// The binary operators are the tokens that bind at all.
    pub open spec fn infix(self) -> Option<Handler> {
        if self.precedence() == Precedence::Lowest {
            None
        } else {
            Some(Handler::Binary)
        }
    }

    /// The rule of the token kind.
    pub open spec fn rule(self) -> ParseRule {
        ParseRule { prefix: self.prefix(), infix: self.infix(), precedence: self.precedence() }
    }

    /// Whether the token is a lexical error.
    pub open spec fn is_error(self) -> bool {
        self is Error
    }

    /// The text that a token of this kind is written as. An error and the end
    /// of input are not written.
    pub open spec fn spelling(self) -> Seq<char> {
        match self {
            TokenTypeView::LeftParen => seq!['('],
            TokenTypeView::RightParen => seq![')'],
            TokenTypeView::LeftBrace => seq!['{'],
            TokenTypeView::RightBrace => seq!['}'],
            TokenTypeView::Comma => seq![','],
            TokenTypeView::Dot => seq!['.'],
            TokenTypeView::Minus => seq!['-'],
            TokenTypeView::Plus => seq!['+'],
            TokenTypeView::Semicolon => seq![';'],
            TokenTypeView::Slash => seq!['/'],
            TokenTypeView::Star => seq!['*'],
            TokenTypeView::Mod => seq!['%'],
            TokenTypeView::BitwiseAnd => seq!['&'],
            TokenTypeView::BitwiseOr => seq!['|'],
            TokenTypeView::Bang => seq!['!'],
            TokenTypeView::BangEqual => seq!['!', '='],
            TokenTypeView::Equal => seq!['='],
            TokenTypeView::EqualEqual => seq!['=', '='],
            TokenTypeView::Greater => seq!['>'],
            TokenTypeView::GreaterEqual => seq!['>', '='],
            TokenTypeView::Less => seq!['<'],
            TokenTypeView::LessEqual => seq!['<', '='],
            TokenTypeView::LogicalAnd => seq!['&', '&'],
            TokenTypeView::LogicalOr => seq!['|', '|'],
            TokenTypeView::And => seq!['a', 'n', 'd'],
            TokenTypeView::Class => seq!['c', 'l', 'a', 's', 's'],
            TokenTypeView::Else => seq!['e', 'l', 's', 'e'],
            TokenTypeView::False => seq!['f', 'a', 'l', 's', 'e'],
            TokenTypeView::For => seq!['f', 'o', 'r'],
            TokenTypeView::Fn => seq!['f', 'n'],
            TokenTypeView::If => seq!['i', 'f'],
            TokenTypeView::Nil => seq!['n', 'i', 'l'],
            TokenTypeView::Or => seq!['o', 'r'],
            TokenTypeView::Print => seq!['p', 'r', 'i', 'n', 't'],
            TokenTypeView::Return => seq!['r', 'e', 't', 'u', 'r', 'n'],
            TokenTypeView::Super => seq!['s', 'u', 'p', 'e', 'r'],
            TokenTypeView::This => seq!['t', 'h', 'i', 's'],
            TokenTypeView::True => seq!['t', 'r', 'u', 'e'],
            TokenTypeView::Var => seq!['v', 'a', 'r'],
            TokenTypeView::While => seq!['w', 'h', 'i', 'l', 'e'],
            TokenTypeView::Identifier(name) => name,
            TokenTypeView::String(contents) => seq!['\''] + contents + seq!['\''],
            TokenTypeView::Number(digits) => digits,
            TokenTypeView::Error(_) => Seq::empty(),
            TokenTypeView::Eof => Seq::empty(),
        }
    }
}

impl TokenType {
    /// The kind of the token, with its text as characters.
    pub open spec fn view(&self) -> TokenTypeView {
        match self {
            TokenType::LeftParen => TokenTypeView::LeftParen,
            TokenType::RightParen => TokenTypeView::RightParen,
            TokenType::LeftBrace => TokenTypeView::LeftBrace,
            TokenType::RightBrace => TokenTypeView::RightBrace,
            TokenType::Comma => TokenTypeView::Comma,
            TokenType::Dot => TokenTypeView::Dot,
            TokenType::Minus => TokenTypeView::Minus,
            TokenType::Plus => TokenTypeView::Plus,
            TokenType::Semicolon => TokenTypeView::Semicolon,
            TokenType::Slash => TokenTypeView::Slash,
            TokenType::Star => TokenTypeView::Star,
            TokenType::Mod => TokenTypeView::Mod,
            TokenType::BitwiseAnd => TokenTypeView::BitwiseAnd,
            TokenType::BitwiseOr => TokenTypeView::BitwiseOr,
            TokenType::Bang => TokenTypeView::Bang,
            TokenType::BangEqual => TokenTypeView::BangEqual,
            TokenType::Equal => TokenTypeView::Equal,
            TokenType::EqualEqual => TokenTypeView::EqualEqual,
            TokenType::Greater => TokenTypeView::Greater,
            TokenType::GreaterEqual => TokenTypeView::GreaterEqual,
            TokenType::Less => TokenTypeView::Less,
            TokenType::LessEqual => TokenTypeView::LessEqual,
            TokenType::LogicalAnd => TokenTypeView::LogicalAnd,
            TokenType::LogicalOr => TokenTypeView::LogicalOr,
            TokenType::Identifier(s) => TokenTypeView::Identifier(s@),
            TokenType::String(s) => TokenTypeView::String(s@),
            TokenType::Number(s) => TokenTypeView::Number(s@),
            TokenType::And => TokenTypeView::And,
            TokenType::Class => TokenTypeView::Class,
            TokenType::Else => TokenTypeView::Else,
            TokenType::False => TokenTypeView::False,
            TokenType::For => TokenTypeView::For,
            TokenType::Fn => TokenTypeView::Fn,
            TokenType::If => TokenTypeView::If,
            TokenType::Nil => TokenTypeView::Nil,
            TokenType::Or => TokenTypeView::Or,
            TokenType::Print => TokenTypeView::Print,
            TokenType::Return => TokenTypeView::Return,
            TokenType::Super => TokenTypeView::Super,
            TokenType::This => TokenTypeView::This,
            TokenType::True => TokenTypeView::True,
            TokenType::Var => TokenTypeView::Var,
            TokenType::While => TokenTypeView::While,
            TokenType::Error(s) => TokenTypeView::Error(s@),
            TokenType::Eof => TokenTypeView::Eof,
        }
    }

    /// A copy of the token kind with the same text.
    pub fn duplicate(&self) -> (r: TokenType)
        ensures
            r@ == self@,
    {
        match self {
            TokenType::LeftParen => TokenType::LeftParen,
            TokenType::RightParen => TokenType::RightParen,
            TokenType::LeftBrace => TokenType::LeftBrace,
            TokenType::RightBrace => TokenType::RightBrace,
            TokenType::Comma => TokenType::Comma,
            TokenType::Dot => TokenType::Dot,
            TokenType::Minus => TokenType::Minus,
            TokenType::Plus => TokenType::Plus,
            TokenType::Semicolon => TokenType::Semicolon,
            TokenType::Slash => TokenType::Slash,
            TokenType::Star => TokenType::Star,
            TokenType::Mod => TokenType::Mod,
            TokenType::BitwiseAnd => TokenType::BitwiseAnd,
            TokenType::BitwiseOr => TokenType::BitwiseOr,
            TokenType::Bang => TokenType::Bang,
            TokenType::BangEqual => TokenType::BangEqual,
            TokenType::Equal => TokenType::Equal,
            TokenType::EqualEqual => TokenType::EqualEqual,
            TokenType::Greater => TokenType::Greater,
            TokenType::GreaterEqual => TokenType::GreaterEqual,
            TokenType::Less => TokenType::Less,
            TokenType::LessEqual => TokenType::LessEqual,
            TokenType::LogicalAnd => TokenType::LogicalAnd,
            TokenType::LogicalOr => TokenType::LogicalOr,
            TokenType::Identifier(s) => TokenType::Identifier(s.clone()),
            TokenType::String(s) => TokenType::String(s.clone()),
            TokenType::Number(s) => TokenType::Number(s.clone()),
            TokenType::And => TokenType::And,
            TokenType::Class => TokenType::Class,
            TokenType::Else => TokenType::Else,
            TokenType::False => TokenType::False,
            TokenType::For => TokenType::For,
            TokenType::Fn => TokenType::Fn,
            TokenType::If => TokenType::If,
            TokenType::Nil => TokenType::Nil,
            TokenType::Or => TokenType::Or,
            TokenType::Print => TokenType::Print,
            TokenType::Return => TokenType::Return,
            TokenType::Super => TokenType::Super,
            TokenType::This => TokenType::This,
            TokenType::True => TokenType::True,
            TokenType::Var => TokenType::Var,
            TokenType::While => TokenType::While,
            TokenType::Error(s) => TokenType::Error(s.clone()),
            TokenType::Eof => TokenType::Eof,
        }
    }

    /// Whether two token kinds are the same, text included.
    pub fn is(&self, other: &TokenType) -> (r: bool)
        ensures
            r == (self@ == other@),
    {
        match (self, other) {
            (TokenType::LeftParen, TokenType::LeftParen) => true,
            (TokenType::RightParen, TokenType::RightParen) => true,
            (TokenType::LeftBrace, TokenType::LeftBrace) => true,
            (TokenType::RightBrace, TokenType::RightBrace) => true,
            (TokenType::Comma, TokenType::Comma) => true,
            (TokenType::Dot, TokenType::Dot) => true,
            (TokenType::Minus, TokenType::Minus) => true,
            (TokenType::Plus, TokenType::Plus) => true,
            (TokenType::Semicolon, TokenType::Semicolon) => true,
            (TokenType::Slash, TokenType::Slash) => true,
            (TokenType::Star, TokenType::Star) => true,
            (TokenType::Mod, TokenType::Mod) => true,
            (TokenType::BitwiseAnd, TokenType::BitwiseAnd) => true,
            (TokenType::BitwiseOr, TokenType::BitwiseOr) => true,
            (TokenType::Bang, TokenType::Bang) => true,
            (TokenType::BangEqual, TokenType::BangEqual) => true,
            (TokenType::Equal, TokenType::Equal) => true,
            (TokenType::EqualEqual, TokenType::EqualEqual) => true,
            (TokenType::Greater, TokenType::Greater) => true,
            (TokenType::GreaterEqual, TokenType::GreaterEqual) => true,
            (TokenType::Less, TokenType::Less) => true,
            (TokenType::LessEqual, TokenType::LessEqual) => true,
            (TokenType::LogicalAnd, TokenType::LogicalAnd) => true,
            (TokenType::LogicalOr, TokenType::LogicalOr) => true,
            (TokenType::Identifier(a), TokenType::Identifier(b)) => *a == *b,
            (TokenType::String(a), TokenType::String(b)) => *a == *b,
            (TokenType::Number(a), TokenType::Number(b)) => *a == *b,
            (TokenType::And, TokenType::And) => true,
            (TokenType::Class, TokenType::Class) => true,
            (TokenType::Else, TokenType::Else) => true,
            (TokenType::False, TokenType::False) => true,
            (TokenType::For, TokenType::For) => true,
            (TokenType::Fn, TokenType::Fn) => true,
            (TokenType::If, TokenType::If) => true,
            (TokenType::Nil, TokenType::Nil) => true,
            (TokenType::Or, TokenType::Or) => true,
            (TokenType::Print, TokenType::Print) => true,
            (TokenType::Return, TokenType::Return) => true,
            (TokenType::Super, TokenType::Super) => true,
            (TokenType::This, TokenType::This) => true,
            (TokenType::True, TokenType::True) => true,
            (TokenType::Var, TokenType::Var) => true,
            (TokenType::While, TokenType::While) => true,
            (TokenType::Error(a), TokenType::Error(b)) => *a == *b,
            (TokenType::Eof, TokenType::Eof) => true,
            _ => false,
        }
    }

    /// The rule of the token kind: its prefix routine, its infix routine and
    /// its precedence.
    pub fn rule(&self) -> (r: ParseRule)
        ensures
            r == self@.rule(),
    {
        match self {
            TokenType::LeftParen => ParseRule {
                prefix: Some(Handler::Grouping),
                infix: None,
                precedence: Precedence::Lowest,
            },
            TokenType::RightParen => ParseRule {
                prefix: None,
                infix: None,
                precedence: Precedence::Lowest,
            },
            TokenType::LeftBrace => ParseRule {
                prefix: None,
                infix: None,
                precedence: Precedence::Lowest,
            },
            TokenType::RightBrace => ParseRule {
                prefix: None,
                infix: None,
                precedence: Precedence::Lowest,
            },
            TokenType::Comma => ParseRule {
                prefix: None,
                infix: None,
                precedence: Precedence::Lowest,
            },
            TokenType::Dot => ParseRule {
                prefix: None,
                infix: None,
                precedence: Precedence::Lowest,
            },
            TokenType::Minus => ParseRule {
                prefix: Some(Handler::Unary),
                infix: Some(Handler::Binary),
                precedence: Precedence::Term,
            },
            TokenType::Plus => ParseRule {
                prefix: None,
                infix: Some(Handler::Binary),
                precedence: Precedence::Term,
            },
            TokenType::Semicolon => ParseRule {
                prefix: None,
                infix: None,
                precedence: Precedence::Lowest,
            },
            TokenType::Slash => ParseRule {
                prefix: None,
                infix: Some(Handler::Binary),
                precedence: Precedence::Factor,
            },
            TokenType::Star => ParseRule {
                prefix: None,
                infix: Some(Handler::Binary),
                precedence: Precedence::Factor,
            },
            TokenType::Mod => ParseRule {
                prefix: None,
                infix: Some(Handler::Binary),
                precedence: Precedence::Factor,
            },
            TokenType::BitwiseAnd => ParseRule {
                prefix: None,
                infix: Some(Handler::Binary),
                precedence: Precedence::Term,
            },
            TokenType::BitwiseOr => ParseRule {
                prefix: None,
                infix: Some(Handler::Binary),
                precedence: Precedence::Term,
            },
            TokenType::Bang => ParseRule {
                prefix: Some(Handler::Unary),
                infix: None,
                precedence: Precedence::Lowest,
            },
            TokenType::BangEqual => ParseRule {
                prefix: None,
                infix: Some(Handler::Binary),
                precedence: Precedence::Equality,
            },
            TokenType::Equal => ParseRule {
                prefix: None,
                infix: None,
                precedence: Precedence::Lowest,
            },
            TokenType::EqualEqual => ParseRule {
                prefix: None,
                infix: Some(Handler::Binary),
                precedence: Precedence::Comparison,
            },
            TokenType::Greater => ParseRule {
                prefix: None,
                infix: Some(Handler::Binary),
                precedence: Precedence::Comparison,
            },
            TokenType::GreaterEqual => ParseRule {
                prefix: None,
                infix: Some(Handler::Binary),
                precedence: Precedence::Comparison,
            },
            TokenType::Less => ParseRule {
                prefix: None,
                infix: Some(Handler::Binary),
                precedence: Precedence::Comparison,
            },
            TokenType::LessEqual => ParseRule {
                prefix: None,
                infix: Some(Handler::Binary),
                precedence: Precedence::Comparison,
            },
            TokenType::LogicalAnd => ParseRule {
                prefix: None,
                infix: Some(Handler::Binary),
                precedence: Precedence::Term,
            },
            TokenType::LogicalOr => ParseRule {
                prefix: None,
                infix: Some(Handler::Binary),
                precedence: Precedence::Term,
            },
            TokenType::Identifier(_) => ParseRule {
                prefix: Some(Handler::Variable),
                infix: None,
                precedence: Precedence::Lowest,
            },
            TokenType::String(_) => ParseRule {
                prefix: Some(Handler::String),
                infix: None,
                precedence: Precedence::Lowest,
            },
            TokenType::Number(_) => ParseRule {
                prefix: Some(Handler::Number),
                infix: None,
                precedence: Precedence::Lowest,
            },
            TokenType::And => ParseRule {
                prefix: None,
                infix: None,
                precedence: Precedence::Lowest,
            },
            TokenType::Class => ParseRule {
                prefix: None,
                infix: None,
                precedence: Precedence::Lowest,
            },
            TokenType::Else => ParseRule {
                prefix: None,
                infix: None,
                precedence: Precedence::Lowest,
            },
            TokenType::False => ParseRule {
                prefix: Some(Handler::Literal),
                infix: None,
                precedence: Precedence::Lowest,
            },
            TokenType::For => ParseRule {
                prefix: None,
                infix: None,
                precedence: Precedence::Lowest,
            },
            TokenType::Fn => ParseRule {
                prefix: None,
                infix: None,
                precedence: Precedence::Lowest,
            },
            TokenType::If => ParseRule {
                prefix: None,
                infix: None,
                precedence: Precedence::Lowest,
            },
            TokenType::Nil => ParseRule {
                prefix: Some(Handler::Literal),
                infix: None,
                precedence: Precedence::Lowest,
            },
            TokenType::Or => ParseRule {
                prefix: None,
                infix: None,
                precedence: Precedence::Lowest,
            },
            TokenType::Print => ParseRule {
                prefix: None,
                infix: None,
                precedence: Precedence::Lowest,
            },
            TokenType::Return => ParseRule {
                prefix: None,
                infix: None,
                precedence: Precedence::Lowest,
            },
            TokenType::Super => ParseRule {
                prefix: None,
                infix: None,
                precedence: Precedence::Lowest,
            },
            TokenType::This => ParseRule {
                prefix: None,
                infix: None,
                precedence: Precedence::Lowest,
            },
            TokenType::True => ParseRule {
                prefix: Some(Handler::Literal),
                infix: None,
                precedence: Precedence::Lowest,
            },
            TokenType::Var => ParseRule {
                prefix: None,
                infix: None,
                precedence: Precedence::Lowest,
            },
            TokenType::While => ParseRule {
                prefix: None,
                infix: None,
                precedence: Precedence::Lowest,
            },
            TokenType::Error(_) => ParseRule {
                prefix: None,
                infix: None,
                precedence: Precedence::Lowest,
            },
            TokenType::Eof => ParseRule {
                prefix: None,
                infix: None,
                precedence: Precedence::Lowest,
            },
        }
    }
}

/// A token: its kind, the line on which it ends, the offset of its first
/// character in the source, and its length in characters.
#[derive(Debug, PartialEq, Clone)]
pub struct Token {
    pub token_type: TokenType,
    pub line: usize,
    pub col: usize,
    pub len: usize,
}

pub ghost struct TokenView {
    pub token_type: TokenTypeView,
    pub line: usize,
    pub col: usize,
    pub len: usize,
}

impl Token {
    /// The token, with the text of its kind as characters.
    pub open spec fn view(&self) -> TokenView {
        TokenView { token_type: self.token_type@, line: self.line, col: self.col, len: self.len }
    }

    /// A token of the given kind at the given place.
    pub fn new(token_type: TokenType, line: usize, col: usize, len: usize) -> (t: Token)
        ensures
            t@ == (TokenView { token_type: token_type@, line, col, len }),
    {
        Token { token_type, line, col, len }
    }

    /// A copy of the token.
    pub fn duplicate(&self) -> (r: Token)
        ensures
            r@ == self@,
    {
        Token { token_type: self.token_type.duplicate(), line: self.line, col: self.col, len: self.len }
    }
}

/// The reserved word that a piece of text spells, if it spells one.
pub open spec fn keyword(text: Seq<char>) -> Option<TokenTypeView> {
    if text == seq!['a', 'n', 'd'] {
        Some(TokenTypeView::And)
    }     else if text == seq!['c', 'l', 'a', 's', 's'] {
        Some(TokenTypeView::Class)
    }     else if text == seq!['e', 'l', 's', 'e'] {
        Some(TokenTypeView::Else)
    }     else if text == seq!['f', 'a', 'l', 's', 'e'] {
        Some(TokenTypeView::False)
    }     else if text == seq!['f', 'o', 'r'] {
        Some(TokenTypeView::For)
    }     else if text == seq!['f', 'n'] {
        Some(TokenTypeView::Fn)
    }     else if text == seq!['i', 'f'] {
        Some(TokenTypeView::If)
    }     else if text == seq!['n', 'i', 'l'] {
        Some(TokenTypeView::Nil)
    }     else if text == seq!['o', 'r'] {
        Some(TokenTypeView::Or)
    }     else if text == seq!['p', 'r', 'i', 'n', 't'] {
        Some(TokenTypeView::Print)
    }     else if text == seq!['r', 'e', 't', 'u', 'r', 'n'] {
        Some(TokenTypeView::Return)
    }     else if text == seq!['s', 'u', 'p', 'e', 'r'] {
        Some(TokenTypeView::Super)
    }     else if text == seq!['t', 'h', 'i', 's'] {
        Some(TokenTypeView::This)
    }     else if text == seq!['t', 'r', 'u', 'e'] {
        Some(TokenTypeView::True)
    }     else if text == seq!['v', 'a', 'r'] {
        Some(TokenTypeView::Var)
    }     else if text == seq!['w', 'h', 'i', 'l', 'e'] {
        Some(TokenTypeView::While)
    } else {
        None
    }
}

/// Only a binary operator continues an expression, and each of them binds
/// above `Lowest`: a token with an infix routine has a precedence of at least
/// `Equality`, and a token without one has `Lowest`. The end of input and
/// errors start and continue nothing.
pub proof fn lemma_rule_table(t: TokenTypeView)
    ensures
        (t.rule().infix is Some) == (t.rule().precedence != Precedence::Lowest),
        t.rule().infix is Some ==> t.rule().infix == Some(Handler::Binary)
            && Precedence::Equality.rank() <= t.rule().precedence.rank()
            <= Precedence::Factor.rank(),
        t is Eof || t is Error ==> t.rule() == (ParseRule {
            prefix: None,
            infix: None,
            precedence: Precedence::Lowest,
        }),
{
}

/// A reserved word is written as the text that names it.
pub proof fn lemma_keyword_spelling(text: Seq<char>)
    ensures
        keyword(text) matches Some(k) ==> k.spelling() == text,
{
}

} // verus!
