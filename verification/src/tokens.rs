//! Tokens of the expression language.
//!
//! A token sequence is immutable once produced; the pipeline only rebuilds it
//! stage to stage. A number token is either a literal still to be read as a
//! double — the scanner fuses a leading minus sign into it — or an already
//! known bit pattern substituted for a variable.

use vstd::prelude::*;

use crate::operators::Operator;

verus! {

/// The numeric payload of a number token.
#[derive(Debug, Clone, PartialEq)]
pub enum Num {
    /// A numeric literal as written, possibly with a fused leading minus.
    Lit(String),
    /// The bit pattern of a double, substituted for a variable.
    Val(u64),
}

/// A token of the expression language.
#[derive(Debug, Clone, PartialEq)]
pub enum Token {
    /// A numeric value.
    Number(Num),
    /// A binary operator.
    Operator(Operator),
    /// A left parenthesis.
    LeftParen,
    /// A right parenthesis.
    RightParen,
    /// A mathematical constant: `pi` or `e`.
    Constant(String),
    /// A unary function: `sin`, `cos`, `tan`, `log`, `ln` or `sqrt`.
    Function(String),
    /// The postfix factorial operator.
    Factorial,
    /// A variable name that was not resolved.
    Variable(String),
}

/// The mathematical view of a token, over character sequences and plain bit
/// patterns.
pub enum TokenView {
    Number(Seq<char>),
    Value(u64),
    Operator(Operator),
    LeftParen,
    RightParen,
    Constant(Seq<char>),
    Function(Seq<char>),
    Factorial,
    Variable(Seq<char>),
}

impl View for Token {
    type V = TokenView;

    open spec fn view(&self) -> TokenView {
        match self {
            Token::Number(Num::Lit(s)) => TokenView::Number(s@),
            Token::Number(Num::Val(b)) => TokenView::Value(*b),
            Token::Operator(op) => TokenView::Operator(*op),
            Token::LeftParen => TokenView::LeftParen,
            Token::RightParen => TokenView::RightParen,
            Token::Constant(s) => TokenView::Constant(s@),
            Token::Function(s) => TokenView::Function(s@),
            Token::Factorial => TokenView::Factorial,
            Token::Variable(s) => TokenView::Variable(s@),
        }
    }
}

/// The view of each token of a sequence.
pub open spec fn token_views(s: Seq<Token>) -> Seq<TokenView> {
    s.map_values(|t: Token| t@)
}

/// Copies a token; the copy has the same view as the original.
pub fn clone_token(t: &Token) -> (r: Token)
    ensures
        r@ == t@,
{
    match t {
        Token::Number(Num::Lit(s)) => Token::Number(Num::Lit(s.clone())),
        Token::Number(Num::Val(b)) => Token::Number(Num::Val(*b)),
        Token::Operator(op) => Token::Operator(*op),
        Token::LeftParen => Token::LeftParen,
        Token::RightParen => Token::RightParen,
        Token::Constant(s) => Token::Constant(s.clone()),
        Token::Function(s) => Token::Function(s.clone()),
        Token::Factorial => Token::Factorial,
        Token::Variable(s) => Token::Variable(s.clone()),
    }
}

} // verus!
