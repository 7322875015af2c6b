//! Token records produced by the scanner, and their mathematical models.

use vstd::prelude::*;

verus! {

/// The closed set of lexical categories. Single-character punctuation,
/// one-or-two-character operators, the two literal kinds, and the
/// end-of-file marker.
#[derive(Clone, Copy, Debug, PartialEq, Eq, Structural)]
pub enum TokenType {
    LeftParen,
    RightParen,
    LeftBrace,
    RightBrace,
    Comma,
    Dot,
    Minus,
    Plus,
    Semicolon,
    Star,
    Slash,
    Bang,
    BangEqual,
    Equal,
    EqualEqual,
    Less,
    LessEqual,
    Greater,
    GreaterEqual,
    Str,
    Number,
    Eof,
}

/// The literal payload of a string or number token.
///
/// A string literal carries its text with the surrounding quotes stripped.
/// A number literal carries the exact decimal text that was matched; a
/// driver that needs the numeric value parses this text into its own
/// floating-point representation.
#[derive(Debug, PartialEq)]
pub enum Literal {
    Text(String),
    Number(String),
}

/// The model of a literal payload: the same tag over a sequence of characters.
pub ghost enum LitModel {
    Text(Seq<char>),
    Num(Seq<char>),
}

impl View for Literal {
    type V = LitModel;

    open spec fn view(&self) -> LitModel {
        match self {
            Literal::Text(s) => LitModel::Text(s@),
            Literal::Number(s) => LitModel::Num(s@),
        }
    }
}

/// One token: its category, the exact matched source text, the optional
/// literal payload, and the 1-based source line at which its scan completed.
#[derive(Debug, PartialEq)]
pub struct Token {
    pub token_type: TokenType,
    pub lexeme: String,
    pub literal: Option<Literal>,
    pub line: usize,
}

/// The model of a token, with the text fields as character sequences.
pub ghost struct TokenModel {
    pub token_type: TokenType,
    pub lexeme: Seq<char>,
    pub literal: Option<LitModel>,
    pub line: int,
}

/// The model of an optional literal payload.
pub open spec fn lit_view(l: Option<Literal>) -> Option<LitModel> {
    match l {
        Some(lit) => Some(lit@),
        None => None,
    }
}

impl View for Token {
    type V = TokenModel;

    open spec fn view(&self) -> TokenModel {
        TokenModel {
            token_type: self.token_type,
            lexeme: self.lexeme@,
            literal: lit_view(self.literal),
            line: self.line as int,
        }
    }
}

impl Clone for Literal {
    fn clone(&self) -> (r: Self)
        ensures
            r == *self,
    {
        match self {
            Literal::Text(s) => Literal::Text(s.clone()),
            Literal::Number(s) => Literal::Number(s.clone()),
        }
    }
}

impl Clone for Token {
    fn clone(&self) -> (r: Self)
        ensures
            r == *self,
    {
        Token {
            token_type: self.token_type,
            lexeme: self.lexeme.clone(),
            literal: match &self.literal {
                Some(l) => Some(l.clone()),
                None => None,
            },
            line: self.line,
        }
    }
}

} // verus!
