use lexer::chars::{classify, classify_with, lookup_punct, CharClass};
use lexer::TokenTag;

#[test]
fn punctuation_table() {
    assert_eq!(lookup_punct('('), Some(TokenTag::LParen));
    assert_eq!(lookup_punct(')'), Some(TokenTag::RParen));
    assert_eq!(lookup_punct('{'), Some(TokenTag::LCurly));
    assert_eq!(lookup_punct('}'), Some(TokenTag::RCurly));
    for c in [',', ';', '[', ']', '<', '>', 'a', '1', ' ', '_', '#'] {
        assert_eq!(lookup_punct(c), None, "{c:?}");
    }
}

#[test]
fn whitespace_comes_first() {
    assert_eq!(classify_with(' ', true, false), CharClass::Whitespace);
    assert_eq!(classify_with('5', true, false), CharClass::Whitespace);
    assert_eq!(classify_with('a', true, true), CharClass::Whitespace);
    assert_eq!(classify_with('(', true, false), CharClass::Whitespace);
}

#[test]
fn digits_come_before_identifier_characters() {
    for c in ['0', '1', '5', '9'] {
        assert_eq!(classify_with(c, false, false), CharClass::Digit, "{c:?}");
        assert_eq!(classify_with(c, false, true), CharClass::Digit, "{c:?}");
    }
    assert_eq!(classify_with('/', false, false), CharClass::Other);
    assert_eq!(classify_with(':', false, false), CharClass::Other);
}

#[test]
fn alphabetic_characters_and_underscore_start_identifiers() {
    assert_eq!(classify_with('a', false, true), CharClass::IdentStart);
    assert_eq!(classify_with('_', false, false), CharClass::IdentStart);
    assert_eq!(classify_with('(', false, true), CharClass::IdentStart);
    assert_eq!(classify_with('a', false, false), CharClass::Other);
}

#[test]
fn punctuation_and_the_rest() {
    assert_eq!(classify_with('(', false, false), CharClass::Punct(TokenTag::LParen));
    assert_eq!(classify_with(')', false, false), CharClass::Punct(TokenTag::RParen));
    assert_eq!(classify_with('{', false, false), CharClass::Punct(TokenTag::LCurly));
    assert_eq!(classify_with('}', false, false), CharClass::Punct(TokenTag::RCurly));
    assert_eq!(classify_with('#', false, false), CharClass::Other);
    assert_eq!(classify_with(',', false, false), CharClass::Other);
    assert_eq!(classify_with(';', false, false), CharClass::Other);
}

#[test]
fn classify_looks_characters_up() {
    for c in [' ', '\t', '\n', '\r', '\u{a0}', '\u{3000}'] {
        assert_eq!(classify(c), CharClass::Whitespace, "{c:?}");
    }
    for c in ['0', '4', '9'] {
        assert_eq!(classify(c), CharClass::Digit, "{c:?}");
    }
    for c in ['a', 'Z', '_', 'é', '京', 'Ω', 'Ⅷ'] {
        assert_eq!(classify(c), CharClass::IdentStart, "{c:?}");
    }
    assert_eq!(classify('('), CharClass::Punct(TokenTag::LParen));
    assert_eq!(classify(')'), CharClass::Punct(TokenTag::RParen));
    assert_eq!(classify('{'), CharClass::Punct(TokenTag::LCurly));
    assert_eq!(classify('}'), CharClass::Punct(TokenTag::RCurly));
    for c in ['#', ',', ';', '+', '-', '.', '"', '½', '٣', '💝', '\0'] {
        assert_eq!(classify(c), CharClass::Other, "{c:?}");
    }
}
