//! The mathematical model of scanning: which tokens a text holds, and where
//! scanning stops. Positions count characters, not bytes.
use crate::chars::{class_of, CharClass};
use crate::token::{TokenTag, TokenView};
use vstd::prelude::*;

verus! {

/// A token's place in the source: its category and the half-open range
/// `[start, end)` of characters it spans.
pub struct Lexeme {
    pub tag: TokenTag,
    pub start: int,
    pub end: int,
}

impl Lexeme {
    /// The token this lexeme stands for in the text `s`.
    pub open spec fn token(self, s: Seq<char>) -> TokenView
        recommends
            0 <= self.start <= self.end <= s.len(),
    {
        TokenView { tag: self.tag, raw: s.subrange(self.start, self.end) }
    }
}

/// The tokens that the lexemes `ls` stand for in the text `s`, in order.
pub open spec fn tokens_of(s: Seq<char>, ls: Seq<Lexeme>) -> Seq<TokenView> {
    Seq::new(ls.len(), |k: int| ls[k].token(s))
}

/// Every span is a range within `[lo, hi]`, and the spans follow each other
/// from left to right without overlapping.
pub open spec fn in_order(ls: Seq<Lexeme>, lo: int, hi: int) -> bool {
    &&& forall|k: int| 0 <= k < ls.len() ==> lo <= (#[trigger] ls[k]).start <= ls[k].end <= hi
    &&& forall|j: int, k: int|
        0 <= j < k < ls.len() ==> (#[trigger] ls[j]).end <= (#[trigger] ls[k]).start
}

/// Where the run of characters of class `class` that starts at `from` ends:
/// the first position at or after `from` whose character is of another
/// class, or the end of the text.
pub open spec fn run_end(s: Seq<char>, from: int, class: CharClass) -> int
    decreases s.len() - from,
{
    if 0 <= from < s.len() && class_of(s[from]) == class {
        run_end(s, from + 1, class)
    } else {
        from
    }
}

/// The lexeme that starts at `at`, if a token can start there: a whole run
/// of digits, a whole run of identifier characters, or one punctuation
/// character.
pub open spec fn lexeme_at(s: Seq<char>, at: int) -> Option<Lexeme>
    recommends
        0 <= at < s.len(),
{
    match class_of(s[at]) {
        CharClass::Digit => Some(
            Lexeme { tag: TokenTag::Number, start: at, end: run_end(s, at, CharClass::Digit) },
        ),
        CharClass::IdentStart => Some(
            Lexeme {
                tag: TokenTag::Identifier,
                start: at,
                end: run_end(s, at, CharClass::IdentStart),
            },
        ),
        CharClass::Punct(tag) => Some(Lexeme { tag, start: at, end: at + 1 }),
        CharClass::Whitespace | CharClass::Other => None,
    }
}

/// The outcome of scanning: the lexemes found, and the position at which
/// scanning stopped. Scanning succeeded when it stopped at the end of the
/// text; otherwise it stopped before a character that starts no token.
pub struct Scan {
    pub lexemes: Seq<Lexeme>,
    pub stop: int,
}

/// Scanning `s` from position `from`: skip whitespace, take the lexeme that
/// starts there, and go on behind it, until the text ends or a character
/// starts no token.
pub open spec fn scan(s: Seq<char>, from: int) -> Scan
    decreases s.len() - from,
    via scan_decreases
{
    let at = run_end(s, from, CharClass::Whitespace);
    if from < 0 || at >= s.len() {
        Scan { lexemes: Seq::empty(), stop: at }
    } else {
        match lexeme_at(s, at) {
            None => Scan { lexemes: Seq::empty(), stop: at },
            Some(l) => {
                let rest = scan(s, l.end);
                Scan { lexemes: seq![l] + rest.lexemes, stop: rest.stop }
            },
        }
    }
}

#[via_fn]
proof fn scan_decreases(s: Seq<char>, from: int) {
    let at = run_end(s, from, CharClass::Whitespace);
    if 0 <= from && at < s.len() {
        lemma_run_end(s, from, CharClass::Whitespace);
        lemma_run_end(s, at, CharClass::Digit);
        lemma_run_end(s, at, CharClass::IdentStart);
    }
}

/// A run ends within the text, holds only characters of its class, and
/// cannot be extended to the right.
pub proof fn lemma_run_end(s: Seq<char>, from: int, class: CharClass)
    requires
        0 <= from <= s.len(),
    ensures
        from <= run_end(s, from, class) <= s.len(),
        forall|k: int| from <= k < run_end(s, from, class) ==> class_of(#[trigger] s[k]) == class,
        run_end(s, from, class) < s.len() ==> class_of(s[run_end(s, from, class)]) != class,
        from < s.len() && class_of(s[from]) == class ==> from < run_end(s, from, class),
    decreases s.len() - from,
{
    if from < s.len() && class_of(s[from]) == class {
        lemma_run_end(s, from + 1, class);
    }
}

/// A range that holds only characters of one class and cannot be extended
/// to the right is the run that starts at its left end.
pub proof fn lemma_run_end_unique(s: Seq<char>, from: int, to: int, class: CharClass)
    requires
        0 <= from <= to <= s.len(),
        forall|k: int| from <= k < to ==> class_of(#[trigger] s[k]) == class,
        to < s.len() ==> class_of(s[to]) != class,
    ensures
        run_end(s, from, class) == to,
    decreases to - from,
{
    if from < to {
        lemma_run_end_unique(s, from + 1, to, class);
    }
}

} // verus!
