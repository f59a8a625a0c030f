use vstd::prelude::*;

verus! {

/// The lexical category of a token.
#[derive(Debug, Clone, Copy, PartialEq, Eq, Structural)]
pub enum TokenTag {
    Identifier,
    Number,
    LParen,
    RParen,
    LCurly,
    RCurly,
    Comma,
    Semicolon,
}

/// A classified fragment of the source text. `raw` borrows the fragment from
/// the source, so a token never outlives the text it was cut from.
#[derive(Debug, Clone, Copy, PartialEq, Eq)]
pub struct Token<'a> {
    pub tag: TokenTag,
    pub raw: &'a str,
}

/// What a token is to a contract: its category and the characters it spans.
pub struct TokenView {
    pub tag: TokenTag,
    pub raw: Seq<char>,
}

impl<'a> View for Token<'a> {
    type V = TokenView;

    open spec fn view(&self) -> TokenView {
        TokenView { tag: self.tag, raw: self.raw@ }
    }
}

} // verus!
