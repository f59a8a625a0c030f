//! Character classification: every character falls in exactly one class, and
//! the scanner decides what to do next from the class of the character it
//! stands before.
use crate::token::TokenTag;
use vstd::prelude::*;

verus! {

/// Whether `char::is_whitespace` holds of `c`: the Unicode `White_Space`
/// property, as the standard library's tables have it.
pub uninterp spec fn char_is_whitespace(c: char) -> bool;

/// Whether `char::is_alphabetic` holds of `c`: the Unicode `Alphabetic`
/// property, as the standard library's tables have it.
pub uninterp spec fn char_is_alphabetic(c: char) -> bool;

/// `char::is_whitespace` is a pure table lookup on its argument. Nothing is
/// claimed of which characters it accepts; the result only gets its name.
pub assume_specification[ char::is_whitespace ](c: char) -> (b: bool)
    ensures
        b == char_is_whitespace(c),
;

/// `char::is_alphabetic` is a pure table lookup on its argument. Nothing is
/// claimed of which characters it accepts; the result only gets its name.
pub assume_specification[ char::is_alphabetic ](c: char) -> (b: bool)
    ensures
        b == char_is_alphabetic(c),
;

/// The closed set of classes a character can fall in.
#[derive(Debug, Clone, Copy, PartialEq, Eq, Structural)]
pub enum CharClass {
    /// Skipped between tokens.
    Whitespace,
    /// A decimal digit, `0` to `9`.
    Digit,
    /// An alphabetic character or `_`.
    IdentStart,
    /// One of the punctuation characters, with the tag of its token.
    Punct(TokenTag),
    /// Anything else: no token can start here.
    Other,
}

/// The decimal digits `0` to `9`.
pub open spec fn is_decimal_digit(c: char) -> bool {
    '0' <= c && c <= '9'
}

/// The fixed punctuation table.
pub open spec fn punct_tag(c: char) -> Option<TokenTag> {
    if c == '(' {
        Some(TokenTag::LParen)
    } else if c == ')' {
        Some(TokenTag::RParen)
    } else if c == '{' {
        Some(TokenTag::LCurly)
    } else if c == '}' {
        Some(TokenTag::RCurly)
    } else {
        None
    }
}

/// The class of `c`, given what the two table lookups say of it. The tests
/// are made in a fixed order, so the classes never overlap: whitespace
/// first, then digits, then identifier characters, then punctuation.
pub open spec fn class_from(c: char, whitespace: bool, alphabetic: bool) -> CharClass {
    if whitespace {
        CharClass::Whitespace
    } else if is_decimal_digit(c) {
        CharClass::Digit
    } else if alphabetic || c == '_' {
        CharClass::IdentStart
    } else {
        match punct_tag(c) {
            Some(tag) => CharClass::Punct(tag),
            None => CharClass::Other,
        }
    }
}

/// The class of `c`.
pub open spec fn class_of(c: char) -> CharClass {
    class_from(c, char_is_whitespace(c), char_is_alphabetic(c))
}

/// Looks `c` up in the punctuation table.
pub fn lookup_punct(c: char) -> (tag: Option<TokenTag>)
    ensures
        tag == punct_tag(c),
{
    match c {
        '(' => Some(TokenTag::LParen),
        ')' => Some(TokenTag::RParen),
        '{' => Some(TokenTag::LCurly),
        '}' => Some(TokenTag::RCurly),
        _ => None,
    }
}

/// Classifies `c` from the answers of the two table lookups.
pub fn classify_with(c: char, whitespace: bool, alphabetic: bool) -> (class: CharClass)
    ensures
        class == class_from(c, whitespace, alphabetic),
{
    if whitespace {
        CharClass::Whitespace
    } else if '0' <= c && c <= '9' {
        CharClass::Digit
    } else if alphabetic || c == '_' {
        CharClass::IdentStart
    } else {
        match lookup_punct(c) {
            Some(tag) => CharClass::Punct(tag),
            None => CharClass::Other,
        }
    }
}

/// Classifies `c`.
pub fn classify(c: char) -> (class: CharClass)
    ensures
        class == class_of(c),
{
    classify_with(c, c.is_whitespace(), c.is_alphabetic())
}

} // verus!
