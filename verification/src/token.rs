//! The tokens that lexing produces, and their mathematical model.

use vstd::prelude::*;

verus! {

/// An atomic lexical unit of the toy language.
///
/// Keyword and punctuation tokens carry no payload; operator, digit and
/// letter tokens carry the matched text or character. `Empty` is the
/// placeholder token: it marks the start of an identifier/number run and
/// stands for every character no other rule recognizes.
#[derive(Debug, PartialEq, Eq)]
pub enum Token {
    If,
    Then,
    Else,
    EndIf,
    Print,
    While,
    Do,
    EndDo,
    OpenParen,
    CloseParen,
    OpenBrace,
    CloseBrace,
    Int,
    RelOp(String),
    MultOp(char),
    AddingOp(char),
    Digit(char),
    Letter(char),
    Empty,
}

/// The mathematical counterpart of [`Token`]: the same variants, with the
/// matched operator text abstracted to a sequence of characters.
pub enum TokenView {
    If,
    Then,
    Else,
    EndIf,
    Print,
    While,
    Do,
    EndDo,
    OpenParen,
    CloseParen,
    OpenBrace,
    CloseBrace,
    Int,
    RelOp(Seq<char>),
    MultOp(char),
    AddingOp(char),
    Digit(char),
    Letter(char),
    Empty,
}

impl View for Token {
    type V = TokenView;

    open spec fn view(&self) -> TokenView {
        match self {
            Token::If => TokenView::If,
            Token::Then => TokenView::Then,
            Token::Else => TokenView::Else,
            Token::EndIf => TokenView::EndIf,
            Token::Print => TokenView::Print,
            Token::While => TokenView::While,
            Token::Do => TokenView::Do,
            Token::EndDo => TokenView::EndDo,
            Token::OpenParen => TokenView::OpenParen,
            Token::CloseParen => TokenView::CloseParen,
            Token::OpenBrace => TokenView::OpenBrace,
            Token::CloseBrace => TokenView::CloseBrace,
            Token::Int => TokenView::Int,
            Token::RelOp(s) => TokenView::RelOp(s@),
            Token::MultOp(c) => TokenView::MultOp(*c),
            Token::AddingOp(c) => TokenView::AddingOp(*c),
            Token::Digit(c) => TokenView::Digit(*c),
            Token::Letter(c) => TokenView::Letter(*c),
            Token::Empty => TokenView::Empty,
        }
    }
}

/// The views of a sequence of tokens, element by element.
pub open spec fn token_views(ts: Seq<Token>) -> Seq<TokenView> {
    ts.map_values(|t: Token| t@)
}

/// The view of a concatenation is the concatenation of the views.
pub proof fn lemma_token_views_concat(a: Seq<Token>, b: Seq<Token>)
    ensures
        token_views(a + b) == token_views(a) + token_views(b),
{
    assert(token_views(a + b) =~= token_views(a) + token_views(b));
}

} // verus!
