//! The token model: the closed set of token kinds, literal value
//! representations, and the position span attached to every token.
//!
//! Each executable type has a mathematical view: `TokenKind` is seen as a
//! [`KindModel`], where identifier and float texts become character
//! sequences and integers become unbounded, so that contracts can speak of
//! token contents without reference to allocation.

use vstd::prelude::*;

verus! {

/// The value of a numeric literal.
///
/// An `Integer` holds the parsed signed 64-bit value. A `Float` holds the
/// matched decimal text (digits with exactly one `.`); turning that text
/// into a machine floating-point value is left to the consumer of the
/// token stream, since this library states its results over exact values.
#[derive(Debug, PartialEq, Clone)]
pub enum NumberLiteral {
    Integer(i64),
    Float(String),
}

/// A classified unit of lexical meaning.
#[derive(Debug, PartialEq, Clone)]
pub enum TokenKind {
    // Keywords:
    Break,  // break
    Else,   // else
    End,    // end
    False,  // false
    Fun,    // fn
    For,    // for
    If,     // if
    In,     // in
    Loop,   // loop
    Patch,  // patch
    Record, // record
    Return, // return
    True,   // true
    Union,  // union
    When,   // when

    // Syntax:
    Mut,            // @
    Colon,          // :
    Scope,          // ::
    Semicolon,      // ;
    RightArrow,     // ->
    Dot,            // .
    Range,          // ..
    RangeInclusive, // ..=
    Comma,          // ,
    Ampersand,      // &
    Star,           // *
    Pipe,           // |
    LeftBrace,      // {
    RightBrace,     // }
    LeftBracket,    // [
    RightBracket,   // ]
    LeftParen,      // (
    RightParen,     // )
    LessThan,       // <
    GreaterThan,    // >
    SingleQuote,    // '
    DoubleQuote,    // "
    Newline,        // newline character

    // Operators:
    And,          // and
    Or,           // or
    Not,          // not
    Plus,         // +
    Minus,        // -
    Divide,       // /
    Modulo,       // %
    Equal,        // =
    DoubleEqual,  // ==
    NotEqual,     // !=
    LessEqual,    // <=
    GreaterEqual, // >=
    PlusEqual,    // +=
    MinusEqual,   // -=
    TimesEqual,   // *=
    DivideEqual,  // /=
    ModuloEqual,  // %=

    // Identifiers and literals:
    Identifier(String),
    Number(NumberLiteral),
}

/// Mathematical view of a [`NumberLiteral`].
pub enum NumberModel {
    Integer(int),
    Float(Seq<char>),
}

impl View for NumberLiteral {
    type V = NumberModel;

    open spec fn view(&self) -> NumberModel {
        match self {
            NumberLiteral::Integer(n) => NumberModel::Integer(*n as int),
            NumberLiteral::Float(t) => NumberModel::Float(t@),
        }
    }
}

/// Mathematical view of a [`TokenKind`]: the same closed set of kinds,
/// with owned strings seen as character sequences.
pub enum KindModel {
    Break,
    Else,
    End,
    False,
    Fun,
    For,
    If,
    In,
    Loop,
    Patch,
    Record,
    Return,
    True,
    Union,
    When,
    Mut,
    Colon,
    Scope,
    Semicolon,
    RightArrow,
    Dot,
    Range,
    RangeInclusive,
    Comma,
    Ampersand,
    Star,
    Pipe,
    LeftBrace,
    RightBrace,
    LeftBracket,
    RightBracket,
    LeftParen,
    RightParen,
    LessThan,
    GreaterThan,
    SingleQuote,
    DoubleQuote,
    Newline,
    And,
    Or,
    Not,
    Plus,
    Minus,
    Divide,
    Modulo,
    Equal,
    DoubleEqual,
    NotEqual,
    LessEqual,
    GreaterEqual,
    PlusEqual,
    MinusEqual,
    TimesEqual,
    DivideEqual,
    ModuloEqual,
    Identifier(Seq<char>),
    Number(NumberModel),
}

impl View for TokenKind {
    type V = KindModel;

    open spec fn view(&self) -> KindModel {
        match self {
            TokenKind::Break => KindModel::Break,
            TokenKind::Else => KindModel::Else,
            TokenKind::End => KindModel::End,
            TokenKind::False => KindModel::False,
            TokenKind::Fun => KindModel::Fun,
            TokenKind::For => KindModel::For,
            TokenKind::If => KindModel::If,
            TokenKind::In => KindModel::In,
            TokenKind::Loop => KindModel::Loop,
            TokenKind::Patch => KindModel::Patch,
            TokenKind::Record => KindModel::Record,
            TokenKind::Return => KindModel::Return,
            TokenKind::True => KindModel::True,
            TokenKind::Union => KindModel::Union,
            TokenKind::When => KindModel::When,
            TokenKind::Mut => KindModel::Mut,
            TokenKind::Colon => KindModel::Colon,
            TokenKind::Scope => KindModel::Scope,
            TokenKind::Semicolon => KindModel::Semicolon,
            TokenKind::RightArrow => KindModel::RightArrow,
            TokenKind::Dot => KindModel::Dot,
            TokenKind::Range => KindModel::Range,
            TokenKind::RangeInclusive => KindModel::RangeInclusive,
            TokenKind::Comma => KindModel::Comma,
            TokenKind::Ampersand => KindModel::Ampersand,
            TokenKind::Star => KindModel::Star,
            TokenKind::Pipe => KindModel::Pipe,
            TokenKind::LeftBrace => KindModel::LeftBrace,
            TokenKind::RightBrace => KindModel::RightBrace,
            TokenKind::LeftBracket => KindModel::LeftBracket,
            TokenKind::RightBracket => KindModel::RightBracket,
            TokenKind::LeftParen => KindModel::LeftParen,
            TokenKind::RightParen => KindModel::RightParen,
            TokenKind::LessThan => KindModel::LessThan,
            TokenKind::GreaterThan => KindModel::GreaterThan,
            TokenKind::SingleQuote => KindModel::SingleQuote,
            TokenKind::DoubleQuote => KindModel::DoubleQuote,
            TokenKind::Newline => KindModel::Newline,
            TokenKind::And => KindModel::And,
            TokenKind::Or => KindModel::Or,
            TokenKind::Not => KindModel::Not,
            TokenKind::Plus => KindModel::Plus,
            TokenKind::Minus => KindModel::Minus,
            TokenKind::Divide => KindModel::Divide,
            TokenKind::Modulo => KindModel::Modulo,
            TokenKind::Equal => KindModel::Equal,
            TokenKind::DoubleEqual => KindModel::DoubleEqual,
            TokenKind::NotEqual => KindModel::NotEqual,
            TokenKind::LessEqual => KindModel::LessEqual,
            TokenKind::GreaterEqual => KindModel::GreaterEqual,
            TokenKind::PlusEqual => KindModel::PlusEqual,
            TokenKind::MinusEqual => KindModel::MinusEqual,
            TokenKind::TimesEqual => KindModel::TimesEqual,
            TokenKind::DivideEqual => KindModel::DivideEqual,
            TokenKind::ModuloEqual => KindModel::ModuloEqual,
            TokenKind::Identifier(t) => KindModel::Identifier(t@),
            TokenKind::Number(n) => KindModel::Number(n@),
        }
    }
}

/// Inclusive start/end character-offset range identifying where a token
/// appears in the source buffer. `end >= start` for every emitted token; a
/// one-character token has `start == end`.
#[derive(Debug, PartialEq, Eq, Clone, Copy, Structural)]
pub struct Span {
    pub start: usize,
    pub end: usize,
}

/// A classified, positioned unit of lexical meaning.
#[derive(Debug, PartialEq, Clone)]
pub struct Token {
    pub kind: TokenKind,
    pub position: Span,
}

/// Mathematical view of a [`Token`]: its kind model and its inclusive span.
pub struct TokenModel {
    pub kind: KindModel,
    pub start: int,
    pub end: int,
}

impl View for Token {
    type V = TokenModel;

    open spec fn view(&self) -> TokenModel {
        TokenModel { kind: self.kind@, start: self.position.start as int, end: self.position.end as int }
    }
}

impl Token {
    /// Create a new token with the given kind, start position, and length.
    ///
    /// Zero-length tokens never occur, so `len` is at least one and the
    /// inclusive end offset is `start + len - 1`.
    pub fn new(kind: TokenKind, start: usize, len: usize) -> (t: Self)
        requires
            1 <= len,
            start + len <= usize::MAX,
        ensures
            t.kind == kind,
            t.position.start == start,
            t.position.end == start + len - 1,
    {
        Self { kind, position: Span { start, end: start + len - 1 } }
    }

    /// Whether this token occupies exactly one character of source text.
    pub fn is_single_char_token(&self) -> (r: bool)
        ensures
            r == (self.position.start == self.position.end),
    {
        self.position.start == self.position.end
    }
}

} // verus!
