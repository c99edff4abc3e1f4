//! The token vocabulary shared by the lexer and the parser.
use vstd::prelude::*;

verus! {

/// The closed set of token tags.
#[derive(Debug, PartialEq, Eq, Clone, Copy, Structural)]
pub enum TokenKind {
    Identifier,
    If,
    Elif,
    Else,
    Print,
    Def,
    Return,
    Integer,
    Newline,
    Indent,
    Dedent,
    Eof,
    ParenL,
    ParenR,
    Colon,
    Comma,
    EqEq,
    Ne,
    Lt,
    Gt,
    Leq,
    Geq,
    Plus,
    Minus,
    Mult,
    Div,
    Mod,
    And,
    Or,
}

/// One lexical unit: its tag and the exact slice of source it was cut from.
#[derive(Clone, Debug, PartialEq)]
pub struct Token {
    pub kind: TokenKind,
    pub lexeme: String,
}

/// The mathematical value of a [`Token`]: the lexeme as a sequence of characters.
pub struct TokenView {
    pub kind: TokenKind,
    pub lexeme: Seq<char>,
}

impl View for Token {
    type V = TokenView;

    open spec fn view(&self) -> TokenView {
        TokenView { kind: self.kind, lexeme: self.lexeme@ }
    }
}

/// The values of a sequence of tokens, in order.
pub open spec fn token_views(tokens: Seq<Token>) -> Seq<TokenView> {
    tokens.map_values(|t: Token| t@)
}

impl Token {
    /// An independent copy of this token.
    pub fn duplicate(&self) -> (copy: Token)
        ensures
            copy@ == self@,
    {
        Token { kind: self.kind, lexeme: self.lexeme.clone() }
    }
}

} // verus!
