//! Tokens: what the scanner hands to a parser.

use vstd::prelude::*;

verus! {

/// The lexical category of a token.
#[derive(Debug, Clone, Copy, PartialEq, Eq, Structural)]
pub enum TokenType {
    // Single-character tokens.
    LeftParen,
    RightParen,
    LeftBrace,
    RightBrace,
    Comma,
    Dot,
    Minus,
    Plus,
    Semicolon,
    Slash,
    Star,
    // One or two character tokens.
    Bang,
    BangEqual,
    Equal,
    EqualEqual,
    Greater,
    GreaterEqual,
    Less,
    LessEqual,
    // Literals.
    Identifier,
    String,
    Number,
    // Keywords.
    And,
    Class,
    Else,
    False,
    Fun,
    For,
    If,
    Nil,
    Or,
    Print,
    Return,
    Super,
    This,
    True,
    Var,
    While,
    /// The synthetic marker that closes every token sequence.
    EndOfInput,
}

/// An exact decimal number: the integer written by `digits`, most significant
/// digit first, divided by ten to the power `scale`.
///
/// `9.125` is held as the digits 9, 1, 2, 5 with scale 3.
#[derive(Debug, Clone, PartialEq, Eq)]
pub struct Decimal {
    /// The digits of the number, each from 0 to 9, without the point.
    pub digits: Vec<u8>,
    /// How many of the digits stand behind the point.
    pub scale: usize,
}

/// The decoded value of a literal token.
#[derive(Debug, Clone, PartialEq, Eq)]
pub enum LiteralType {
    /// The token is no literal.
    Nil,
    /// The text of a string literal, without its quotes.
    StringLiteral(String),
    /// The value of a numeric literal.
    NumberLiteral(Decimal),
    /// A truth value.
    BooleanLiteral(bool),
}

/// A classified, line-tagged fragment of source text.
#[derive(Debug, Clone, PartialEq, Eq)]
pub struct Token {
    pub token_type: TokenType,
    /// The exact piece of the source that makes up the token.
    pub lexeme: String,
    pub literal: LiteralType,
    /// The line, counted from 1, on which the token begins.
    pub line: usize,
}

/// What a `LiteralType` stands for.
pub enum LiteralView {
    Nil,
    Text(Seq<char>),
    Number { digits: Seq<u8>, scale: nat },
    Boolean(bool),
}

/// What a `Token` stands for.
pub struct TokenView {
    pub token_type: TokenType,
    pub lexeme: Seq<char>,
    pub literal: LiteralView,
    pub line: nat,
}

impl View for LiteralType {
    type V = LiteralView;

    open spec fn view(&self) -> LiteralView {
        match self {
            LiteralType::Nil => LiteralView::Nil,
            LiteralType::StringLiteral(text) => LiteralView::Text(text@),
            LiteralType::NumberLiteral(number) => LiteralView::Number {
                digits: number.digits@,
                scale: number.scale as nat,
            },
            LiteralType::BooleanLiteral(b) => LiteralView::Boolean(*b),
        }
    }
}

impl View for Token {
    type V = TokenView;

    open spec fn view(&self) -> TokenView {
        TokenView {
            token_type: self.token_type,
            lexeme: self.lexeme@,
            literal: self.literal@,
            line: self.line as nat,
        }
    }
}

impl DeepView for Token {
    type V = TokenView;

    open spec fn deep_view(&self) -> TokenView {
        self@
    }
}

impl Decimal {
    /// A copy of the number.
    pub fn duplicate(&self) -> (copy: Decimal)
        ensures
            copy.digits@ == self.digits@,
            copy.scale == self.scale,
    {
        let mut digits: Vec<u8> = Vec::new();
        let mut i: usize = 0;
        while i < self.digits.len()
            invariant
                i <= self.digits.len(),
                digits@ == self.digits@.take(i as int),
            decreases self.digits.len() - i,
        {
            digits.push(self.digits[i]);
            i += 1;
        }
        Decimal { digits, scale: self.scale }
    }
}

impl LiteralType {
    /// A copy of the literal.
    pub fn duplicate(&self) -> (copy: LiteralType)
        ensures
            copy@ == self@,
    {
        match self {
            LiteralType::Nil => LiteralType::Nil,
            LiteralType::StringLiteral(text) => LiteralType::StringLiteral(text.clone()),
            LiteralType::NumberLiteral(number) => LiteralType::NumberLiteral(number.duplicate()),
            LiteralType::BooleanLiteral(b) => LiteralType::BooleanLiteral(*b),
        }
    }
}

impl Token {
    /// A copy of the token.
    pub fn duplicate(&self) -> (copy: Token)
        ensures
            copy@ == self@,
    {
        Token {
            token_type: self.token_type,
            lexeme: self.lexeme.clone(),
            literal: self.literal.duplicate(),
            line: self.line,
        }
    }
}

} // verus!
