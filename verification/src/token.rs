//! The lexical input: tokens of the host grammar, grouped by matching
//! delimiters.

use vstd::prelude::*;

verus! {

/// A half-open byte range in the source text.
#[derive(Clone, Copy, Debug, PartialEq, Eq)]
pub struct Span {
    pub lo: u32,
    pub hi: u32,
}

/// The binary operators of the host grammar.
#[derive(Clone, Copy, Debug, PartialEq, Eq)]
pub enum BinOp {
    Plus,
    Minus,
    Star,
    Slash,
    Percent,
    Caret,
    And,
    Or,
    Shl,
    Shr,
}

/// The three kinds of delimiter pairs.
#[derive(Clone, Copy, Debug, PartialEq, Eq)]
pub enum Delim {
    Paren,
    Bracket,
    Brace,
}

/// The shape of one token. Identifiers and literals carry no payload: their
/// text never matters here.
#[derive(Clone, Copy, Debug, PartialEq, Eq)]
pub enum Token {
    /// `<`
    Lt,
    /// `>`
    Gt,
    /// `<=`
    Le,
    /// `>=`
    Ge,
    /// `=`
    Eq,
    /// `.`
    Dot,
    /// `..`
    DotDot,
    /// `...`
    DotDotDot,
    /// `,`
    Comma,
    /// A binary operator such as `+` or `<<`.
    BinOp(BinOp),
    /// A binary operator followed by `=`, such as `+=` or `<<=`.
    BinOpEq(BinOp),
    /// `=>`
    FatArrow,
    /// `->`
    RArrow,
    /// `<-`
    LArrow,
    /// An opening delimiter that has no partner.
    OpenDelim(Delim),
    /// A closing delimiter that has no partner.
    CloseDelim(Delim),
    /// `$`
    Dollar,
    Ident,
    Literal,
    /// Any other token of the host grammar.
    Other,
}

/// Tokens interleaved with delimited groups.
#[derive(Debug, PartialEq, Eq)]
pub enum TokenTree {
    /// A single token at its place in the source.
    Token(Span, Token),
    /// A well-matched pair of delimiters and what stands between them.
    Delimited(Span, Delim, Vec<TokenTree>),
    /// A repetition placeholder of the host's macro grammar.
    Sequence(Span),
}

} // verus!
