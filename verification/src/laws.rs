//! What holds of every scan: where it stops, that its tokens and the
//! whitespace between them tile the text, and that every run of digits or
//! of identifier characters comes out as exactly one token.
use crate::chars::{class_of, punct_tag, CharClass};
use crate::scan::{
    in_order, lemma_run_end, lemma_run_end_unique, lexeme_at, run_end, scan, Lexeme, Scan,
};
use crate::token::TokenTag;
use vstd::prelude::*;

verus! {

/// The category of the token that a run of characters of class `class`
/// becomes. Only runs of digits and of identifier characters become tokens.
pub open spec fn run_tag(class: CharClass) -> TokenTag {
    if class == CharClass::Digit {
        TokenTag::Number
    } else {
        TokenTag::Identifier
    }
}

/// `[start, end)` is a run of characters of class `class` that can be
/// extended neither to the left nor to the right.
pub open spec fn is_maximal_run(s: Seq<char>, start: int, end: int, class: CharClass) -> bool {
    &&& 0 <= start < end <= s.len()
    &&& forall|k: int| start <= k < end ==> class_of(#[trigger] s[k]) == class
    &&& (start == 0 || class_of(s[start - 1]) != class)
    &&& (end == s.len() || class_of(s[end]) != class)
}

/// The text from `from` to `stop`, put together again from the lexemes `ls`
/// found in it: before each token the characters that were skipped, then
/// the token's own characters, and behind the last token what is left.
pub open spec fn stitched(s: Seq<char>, ls: Seq<Lexeme>, from: int, stop: int) -> Seq<char>
    decreases ls.len(),
{
    if ls.len() == 0 {
        s.subrange(from, stop)
    } else {
        s.subrange(from, ls[0].start) + ls[0].token(s).raw + stitched(
            s,
            ls.drop_first(),
            ls[0].end,
            stop,
        )
    }
}

/// Position `p` lies in none of the spans `ls`.
pub open spec fn skipped(ls: Seq<Lexeme>, p: int) -> bool {
    forall|k: int| 0 <= k < ls.len() ==> !((#[trigger] ls[k]).start <= p < ls[k].end)
}

/// A text that holds nothing but whitespace scans to no token at all, and
/// the scan reaches its end.
pub proof fn lemma_whitespace_scans_to_nothing(s: Seq<char>)
    requires
        forall|k: int| 0 <= k < s.len() ==> class_of(#[trigger] s[k]) == CharClass::Whitespace,
    ensures
        scan(s, 0).lexemes == Seq::<Lexeme>::empty(),
        scan(s, 0).stop == s.len(),
{
    lemma_run_end_unique(s, 0, s.len() as int, CharClass::Whitespace);
}

/// Scanning stops at the first character that starts no token, or at the end
/// of the text where there is no such character.
pub proof fn lemma_scan_stops_at_first_unrecognized(s: Seq<char>, from: int)
    requires
        0 <= from <= s.len(),
    ensures
        from <= scan(s, from).stop <= s.len(),
        scan(s, from).stop < s.len() ==> class_of(s[scan(s, from).stop]) == CharClass::Other,
        forall|k: int|
            from <= k < scan(s, from).stop ==> class_of(#[trigger] s[k]) != CharClass::Other,
    decreases s.len() - from,
{
    let at = run_end(s, from, CharClass::Whitespace);
    lemma_run_end(s, from, CharClass::Whitespace);
    if at < s.len() {
        lemma_run_end(s, at, CharClass::Digit);
        lemma_run_end(s, at, CharClass::IdentStart);
        match class_of(s[at]) {
            CharClass::Digit => {
                lemma_scan_stops_at_first_unrecognized(s, run_end(s, at, CharClass::Digit));
            },
            CharClass::IdentStart => {
                lemma_scan_stops_at_first_unrecognized(s, run_end(s, at, CharClass::IdentStart));
            },
            CharClass::Punct(_) => {
                lemma_scan_stops_at_first_unrecognized(s, at + 1);
            },
            _ => {},
        }
    }
}

/// The tokens of a scan and the whitespace between them tile the scanned
/// text: the spans are not empty, follow each other without overlapping,
/// hold no whitespace, and every character outside them is whitespace. So
/// the scanned text is the tokens' characters in order, with the skipped
/// whitespace put back between them.
pub proof fn lemma_scan_tiles_text(s: Seq<char>, from: int)
    requires
        0 <= from <= s.len(),
    ensures
        in_order(scan(s, from).lexemes, from, scan(s, from).stop),
        forall|k: int|
            0 <= k < scan(s, from).lexemes.len() ==> (#[trigger] scan(s, from).lexemes[k]).start
                < scan(s, from).lexemes[k].end,
        forall|k: int, p: int|
            0 <= k < scan(s, from).lexemes.len() && (#[trigger] scan(s, from).lexemes[k]).start <= p
                < scan(s, from).lexemes[k].end ==> class_of(#[trigger] s[p])
                != CharClass::Whitespace,
        forall|p: int|
            from <= p < scan(s, from).stop && skipped(scan(s, from).lexemes, p) ==> class_of(
                #[trigger] s[p],
            ) == CharClass::Whitespace,
        stitched(s, scan(s, from).lexemes, from, scan(s, from).stop) == s.subrange(
            from,
            scan(s, from).stop,
        ),
    decreases s.len() - from,
{
    let at = run_end(s, from, CharClass::Whitespace);
    let found = scan(s, from).lexemes;
    let stop = scan(s, from).stop;
    lemma_run_end(s, from, CharClass::Whitespace);
    if at < s.len() {
        lemma_run_end(s, at, CharClass::Digit);
        lemma_run_end(s, at, CharClass::IdentStart);
        if class_of(s[at]) != CharClass::Other {
            let first = found[0];
            let rest = scan(s, first.end).lexemes;
            lemma_scan_tiles_text(s, first.end);
            lemma_scan_stops_at_first_unrecognized(s, first.end);
            assert(found.drop_first() =~= rest);
            assert forall|p: int| from <= p < stop && skipped(found, p) implies class_of(
                #[trigger] s[p],
            ) == CharClass::Whitespace by {
                if p >= first.end {
                    assert(skipped(rest, p));
                }
            }
            assert(s.subrange(from, first.start) + first.token(s).raw + s.subrange(first.end, stop)
                =~= s.subrange(from, stop));
        }
    }
}

/// Where the scan of a text reaches its end, the tokens' characters in
/// order, with the skipped whitespace put back between them, are the text
/// itself.
pub proof fn lemma_scan_rebuilds_text(s: Seq<char>)
    requires
        scan(s, 0).stop == s.len(),
    ensures
        stitched(s, scan(s, 0).lexemes, 0, s.len() as int) == s,
{
    lemma_scan_tiles_text(s, 0);
    assert(s.subrange(0, s.len() as int) =~= s);
}

/// A maximal run of digits or of identifier characters comes out as one
/// token that spans the whole run, wherever the scan starts at or before the
/// run and meets no character that starts no token on its way to the run.
/// Returns the token's place among the lexemes of the scan.
pub proof fn lemma_run_is_one_token(
    s: Seq<char>,
    from: int,
    start: int,
    end: int,
    class: CharClass,
) -> (k: int)
    requires
        class == CharClass::Digit || class == CharClass::IdentStart,
        is_maximal_run(s, start, end, class),
        0 <= from <= start,
        forall|p: int| from <= p < start ==> class_of(#[trigger] s[p]) != CharClass::Other,
    ensures
        0 <= k < scan(s, from).lexemes.len(),
        scan(s, from).lexemes[k] == (Lexeme { tag: run_tag(class), start, end }),
        forall|j: int|
            0 <= j < scan(s, from).lexemes.len() && j != k ==> (#[trigger] scan(
                s,
                from,
            ).lexemes[j]).end <= start || end <= scan(s, from).lexemes[j].start,
    decreases s.len() - from,
{
    let at = run_end(s, from, CharClass::Whitespace);
    let found = scan(s, from).lexemes;
    lemma_run_end(s, from, CharClass::Whitespace);
    lemma_run_end(s, at, CharClass::Digit);
    lemma_run_end(s, at, CharClass::IdentStart);
    lemma_scan_tiles_text(s, from);
    lemma_scan_stops_at_first_unrecognized(s, from);
    let k = if at == start {
        lemma_run_end_unique(s, start, end, class);
        0
    } else {
        let first = found[0];
        if first.end > start {
            assert(class_of(s[start]) == class_of(s[at]));
        }
        lemma_run_is_one_token(s, first.end, start, end, class) + 1
    };
    k
}

/// Every maximal run of digits comes out as exactly one `Number` token,
/// whose characters are the whole run; no other token holds any part of the
/// run. This holds of every run that the scan gets to: one with no character
/// before it that starts no token.
pub proof fn lemma_digit_run_is_one_number(s: Seq<char>, start: int, end: int) -> (k: int)
    requires
        is_maximal_run(s, start, end, CharClass::Digit),
        forall|p: int| 0 <= p < start ==> class_of(#[trigger] s[p]) != CharClass::Other,
    ensures
        0 <= k < scan(s, 0).lexemes.len(),
        scan(s, 0).lexemes[k] == (Lexeme { tag: TokenTag::Number, start, end }),
        scan(s, 0).lexemes[k].token(s).raw == s.subrange(start, end),
        forall|j: int|
            0 <= j < scan(s, 0).lexemes.len() && j != k ==> (#[trigger] scan(s, 0).lexemes[j]).end
                <= start || end <= scan(s, 0).lexemes[j].start,
{
    lemma_run_is_one_token(s, 0, start, end, CharClass::Digit)
}

/// Every maximal run of identifier characters comes out as exactly one
/// `Identifier` token, whose characters are the whole run; no other token
/// holds any part of the run. This holds of every run that the scan gets to:
/// one with no character before it that starts no token.
pub proof fn lemma_identifier_run_is_one_identifier(s: Seq<char>, start: int, end: int) -> (k: int)
    requires
        is_maximal_run(s, start, end, CharClass::IdentStart),
        forall|p: int| 0 <= p < start ==> class_of(#[trigger] s[p]) != CharClass::Other,
    ensures
        0 <= k < scan(s, 0).lexemes.len(),
        scan(s, 0).lexemes[k] == (Lexeme { tag: TokenTag::Identifier, start, end }),
        scan(s, 0).lexemes[k].token(s).raw == s.subrange(start, end),
        forall|j: int|
            0 <= j < scan(s, 0).lexemes.len() && j != k ==> (#[trigger] scan(s, 0).lexemes[j]).end
                <= start || end <= scan(s, 0).lexemes[j].start,
{
    lemma_run_is_one_token(s, 0, start, end, CharClass::IdentStart)
}

/// The lexeme `l` is a whole token of the text `s`: a maximal run of digits
/// for a `Number`, a maximal run of identifier characters for an
/// `Identifier`, and for any other category the one punctuation character
/// that the table gives that category.
pub open spec fn is_whole_token(s: Seq<char>, l: Lexeme) -> bool {
    match l.tag {
        TokenTag::Number => is_maximal_run(s, l.start, l.end, CharClass::Digit),
        TokenTag::Identifier => is_maximal_run(s, l.start, l.end, CharClass::IdentStart),
        tag => {
            &&& 0 <= l.start < s.len()
            &&& l.end == l.start + 1
            &&& class_of(s[l.start]) == CharClass::Punct(tag)
            &&& punct_tag(s[l.start]) == Some(tag)
        },
    }
}

/// Position `p` does not continue a run: it is the start of the text, or
/// its character is of another class than the one before it, or it is a
/// punctuation character, which is a token by itself.
pub open spec fn starts_afresh(s: Seq<char>, p: int) -> bool {
    ||| p <= 0
    ||| p >= s.len()
    ||| class_of(s[p - 1]) != class_of(s[p])
    ||| class_of(s[p]) is Punct
}

/// Every token of a scan that starts where no run is continued is a whole
/// token: no token is a part of a longer run, and punctuation tokens are
/// single characters with the tag of the punctuation table.
pub proof fn lemma_tokens_are_whole_from(s: Seq<char>, from: int)
    requires
        0 <= from <= s.len(),
        starts_afresh(s, from),
    ensures
        forall|k: int|
            0 <= k < scan(s, from).lexemes.len() ==> is_whole_token(
                s,
                #[trigger] scan(s, from).lexemes[k],
            ),
    decreases s.len() - from,
{
    let at = run_end(s, from, CharClass::Whitespace);
    let found = scan(s, from).lexemes;
    lemma_run_end(s, from, CharClass::Whitespace);
    if at < s.len() {
        lemma_run_end(s, at, CharClass::Digit);
        lemma_run_end(s, at, CharClass::IdentStart);
        if class_of(s[at]) != CharClass::Other {
            let first = found[0];
            let rest = scan(s, first.end).lexemes;
            lemma_tokens_are_whole_from(s, first.end);
            assert forall|k: int| 0 <= k < found.len() implies is_whole_token(
                s,
                #[trigger] found[k],
            ) by {
                if k > 0 {
                    assert(found[k] == rest[k - 1]);
                }
            }
        }
    }
}

/// Every token that scanning a text from its start gives is a whole token.
pub proof fn lemma_tokens_are_whole(s: Seq<char>)
    ensures
        forall|k: int|
            0 <= k < scan(s, 0).lexemes.len() ==> is_whole_token(
                s,
                #[trigger] scan(s, 0).lexemes[k],
            ),
{
    lemma_tokens_are_whole_from(s, 0);
}

/// Scanning on from where a scan stopped finds nothing more and stops at the
/// same place.
pub proof fn lemma_scan_again_finds_nothing(s: Seq<char>, from: int)
    requires
        0 <= from <= s.len(),
    ensures
        scan(s, scan(s, from).stop) == (Scan {
            lexemes: Seq::empty(),
            stop: scan(s, from).stop,
        }),
{
    let stop = scan(s, from).stop;
    lemma_scan_stops_at_first_unrecognized(s, from);
    lemma_run_end_unique(s, stop, stop, CharClass::Whitespace);
}

} // verus!
