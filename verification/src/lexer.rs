//! The tokenizer: it owns a scan cursor over a borrowed source text and a
//! queue of the tokens produced so far.
use crate::chars::{class_of, classify, lookup_punct, punct_tag, CharClass};
use crate::laws::lemma_scan_stops_at_first_unrecognized;
use crate::scan::{
    in_order, lemma_run_end, lemma_run_end_unique, lexeme_at, run_end, scan, tokens_of, Lexeme,
};
use crate::token::{Token, TokenTag, TokenView};
use std::collections::VecDeque;
use vstd::prelude::*;
use vstd::string::StrSliceExecFns;

verus! {

/// Why scanning stopped before the end of the text.
#[derive(Debug, Clone, Copy, PartialEq, Eq, Structural)]
pub enum LexError {
    /// The character at `offset` (counted in characters) starts no token.
    UnrecognizedCharacter { character: char, offset: usize },
}

/// A tokenizer bound to one source text.
pub struct Lexer<'a> {
    source: &'a str,
    /// The number of characters in `source`.
    length: usize,
    /// The position of the next unread character.
    index: usize,
    /// The tokens produced and not yet taken, oldest first.
    tokens: VecDeque<Token<'a>>,
    /// Where each token of `tokens` lies in `source`.
    spans: Ghost<Seq<Lexeme>>,
}

impl<'a> Lexer<'a> {
    /// The source text, as characters.
    pub closed spec fn source(&self) -> Seq<char> {
        self.source@
    }

    /// The position of the next unread character.
    pub closed spec fn cursor(&self) -> int {
        self.index as int
    }

    /// The tokens waiting to be taken, oldest first.
    pub closed spec fn pending(&self) -> Seq<TokenView> {
        Seq::new(self.tokens@.len(), |k: int| self.tokens@[k]@)
    }

    /// The place in the source of each pending token.
    pub closed spec fn spans(&self) -> Seq<Lexeme> {
        self.spans@
    }

    /// The token at the front of the queue, if there is one.
    pub open spec fn front(&self) -> Option<TokenView> {
        if self.pending().len() > 0 {
            Some(self.pending()[0])
        } else {
            None
        }
    }

    /// The tokenizer's invariant: the cursor lies within the source, every
    /// pending token is the fragment of the source that its span names, and
    /// the spans lie before the cursor in the order of the queue.
    pub closed spec fn wf(&self) -> bool {
        &&& self.length == self.source@.len()
        &&& self.index <= self.length
        &&& self.pending() =~= tokens_of(self.source(), self.spans())
        &&& in_order(self.spans(), 0, self.cursor())
    }

    /// What the invariant says, over the public view of the tokenizer.
    pub proof fn lemma_wf(&self)
        requires
            self.wf(),
        ensures
            0 <= self.cursor() <= self.source().len(),
            self.pending() == tokens_of(self.source(), self.spans()),
            in_order(self.spans(), 0, self.cursor()),
    {
    }

    /// Binds a tokenizer to `source`, with the cursor at the start and no
    /// token pending. The empty text is as good as any other.
    pub fn new(source: &'a str) -> (lexer: Self)
        ensures
            lexer.wf(),
            lexer.source() == source@,
            lexer.cursor() == 0,
            lexer.pending() == Seq::<TokenView>::empty(),
            lexer.spans() == Seq::<Lexeme>::empty(),
    {
        Self {
            source,
            length: source.unicode_len(),
            index: 0,
            tokens: VecDeque::new(),
            spans: Ghost(Seq::empty()),
        }
    }

    /// The position of the next unread character.
    pub fn cursor_position(&self) -> (position: usize)
        ensures
            position == self.cursor(),
    {
        self.index
    }

    /// The token at the front of the queue, left in place; `None` when the
    /// queue is empty.
    pub fn peek(&self) -> (front: Option<&Token<'a>>)
        ensures
            match front {
                Some(token) => self.front() == Some(token@),
                None => self.front().is_none(),
            },
    {
        if self.tokens.len() > 0 {
            Some(&self.tokens[0])
        } else {
            None
        }
    }

    /// Takes the token at the front of the queue; `None` when the queue is
    /// empty. The cursor stays where it is.
    pub fn next(&mut self) -> (front: Option<Token<'a>>)
        requires
            old(self).wf(),
        ensures
            final(self).wf(),
            final(self).source() == old(self).source(),
            final(self).cursor() == old(self).cursor(),
            match front {
                Some(token) => {
                    &&& old(self).front() == Some(token@)
                    &&& final(self).pending() == old(self).pending().drop_first()
                    &&& final(self).spans() == old(self).spans().drop_first()
                },
                None => {
                    &&& old(self).front().is_none()
                    &&& final(self).pending() == old(self).pending()
                    &&& final(self).spans() == old(self).spans()
                },
            },
    {
        let front = self.tokens.pop_front();
        proof {
            if front.is_some() {
                self.spans@ = self.spans@.drop_first();
                assert forall|k: int| 0 <= k < self.pending().len() implies self.pending()[k]
                    == tokens_of(self.source(), self.spans())[k] by {
                    assert(self.pending()[k] == old(self).pending()[k + 1]);
                }
            }
        }
        front
    }

    /// The next unread character, left unread; `None` at the end of the
    /// text.
    fn peek_char(&self) -> (next: Option<char>)
        requires
            self.wf(),
        ensures
            next == (if self.cursor() < self.source().len() {
                Some(self.source()[self.cursor()])
            } else {
                None
            }),
    {
        if self.index < self.length {
            Some(self.source.get_char(self.index))
        } else {
            None
        }
    }

    /// Reads the next character and moves the cursor behind it; at the end
    /// of the text it returns `None` and the cursor stays.
    fn eat_char(&mut self) -> (next: Option<char>)
        requires
            old(self).wf(),
        ensures
            final(self).wf(),
            final(self).source() == old(self).source(),
            final(self).pending() == old(self).pending(),
            final(self).spans() == old(self).spans(),
            next == (if old(self).cursor() < old(self).source().len() {
                Some(old(self).source()[old(self).cursor()])
            } else {
                None
            }),
            final(self).cursor() == old(self).cursor() + (if next.is_some() {
                1int
            } else {
                0int
            }),
    {
        let c = self.peek_char();
        if c.is_some() {
            self.index += 1;
        }
        c
    }

    /// Reads on while `func` accepts the next character, and returns the
    /// range `(start, end)` of the characters read: the longest run of
    /// accepted characters that starts at the cursor.
    fn tokenize_while(&mut self, func: impl Fn(char) -> bool) -> (span: (usize, usize))
        requires
            old(self).wf(),
            forall|c: char| func.requires((c,)),
        ensures
            final(self).wf(),
            final(self).source() == old(self).source(),
            final(self).pending() == old(self).pending(),
            final(self).spans() == old(self).spans(),
            span.0 == old(self).cursor(),
            span.1 == final(self).cursor(),
            span.0 <= span.1 <= old(self).source().len(),
            forall|k: int|
                span.0 <= k < span.1 ==> func.ensures((#[trigger] old(self).source()[k],), true),
            span.1 < old(self).source().len() ==> func.ensures(
                (old(self).source()[span.1 as int],),
                false,
            ),
    {
        let start = self.index;
        loop
            invariant
                self.wf(),
                self.source() == old(self).source(),
                self.pending() == old(self).pending(),
                self.spans() == old(self).spans(),
                start == old(self).cursor(),
                start <= self.cursor() <= self.source().len(),
                forall|c: char| func.requires((c,)),
                forall|k: int|
                    start <= k < self.cursor() ==> func.ensures((#[trigger] self.source()[k],), true),
            ensures
                self.cursor() < self.source().len() ==> func.ensures(
                    (self.source()[self.cursor()],),
                    false,
                ),
            decreases self.source().len() - self.cursor(),
        {
            match self.peek_char() {
                None => {
                    break ;
                },
                Some(c) => {
                    if !func(c) {
                        break ;
                    }
                    self.eat_char();
                },
            }
        }
        let end = self.index;
        (start, end)
    }

    /// Skips the whitespace at the cursor.
    fn clear_whitespace(&mut self)
        requires
            old(self).wf(),
        ensures
            final(self).wf(),
            final(self).source() == old(self).source(),
            final(self).pending() == old(self).pending(),
            final(self).spans() == old(self).spans(),
            final(self).cursor() == run_end(
                old(self).source(),
                old(self).cursor(),
                CharClass::Whitespace,
            ),
    {
        let span = self.tokenize_while(
            |c: char| -> (b: bool)
                ensures
                    b == (class_of(c) == CharClass::Whitespace)
            {
                classify(c) == CharClass::Whitespace
            },
        );
        proof {
            lemma_run_end_unique(
                self.source(),
                span.0 as int,
                span.1 as int,
                CharClass::Whitespace,
            );
        }
    }

    /// Appends to the queue the token of category `tag` that spans the
    /// characters `[start, end)`.
    fn emit(&mut self, tag: TokenTag, start: usize, end: usize)
        requires
            old(self).wf(),
            start <= end <= old(self).cursor(),
            in_order(old(self).spans(), 0, start as int),
        ensures
            final(self).wf(),
            final(self).source() == old(self).source(),
            final(self).cursor() == old(self).cursor(),
            final(self).spans() == old(self).spans().push(
                Lexeme { tag, start: start as int, end: end as int },
            ),
            final(self).pending() == old(self).pending().push(
                Lexeme { tag, start: start as int, end: end as int }.token(old(self).source()),
            ),
    {
        let token = Token { tag, raw: self.source.substring_char(start, end) };
        self.tokens.push_back(token);
        proof {
            let lexeme = Lexeme { tag, start: start as int, end: end as int };
            self.spans@ = self.spans@.push(lexeme);
            assert forall|k: int| 0 <= k < self.pending().len() implies self.pending()[k]
                == tokens_of(self.source(), self.spans())[k] by {
                if k < old(self).pending().len() {
                    assert(self.pending()[k] == old(self).pending()[k]);
                }
            }
        }
    }

    /// Reads the run of digits at the cursor and appends it to the queue as
    /// one `Number` token.
    fn tokenize_number(&mut self)
        requires
            old(self).wf(),
            old(self).cursor() < old(self).source().len(),
        ensures
            final(self).wf(),
            final(self).source() == old(self).source(),
            final(self).cursor() == run_end(
                old(self).source(),
                old(self).cursor(),
                CharClass::Digit,
            ),
            final(self).spans() == old(self).spans().push(
                Lexeme {
                    tag: TokenTag::Number,
                    start: old(self).cursor(),
                    end: final(self).cursor(),
                },
            ),
            final(self).pending() == old(self).pending().push(
                TokenView {
                    tag: TokenTag::Number,
                    raw: old(self).source().subrange(old(self).cursor(), final(self).cursor()),
                },
            ),
    {
        let (start, end) = self.tokenize_while(
            |c: char| -> (b: bool)
                ensures
                    b == (class_of(c) == CharClass::Digit)
            {
                classify(c) == CharClass::Digit
            },
        );
        proof {
            lemma_run_end_unique(self.source(), start as int, end as int, CharClass::Digit);
        }
        self.emit(TokenTag::Number, start, end);
    }

    /// Reads the run of identifier characters at the cursor and appends it
    /// to the queue as one `Identifier` token.
    fn tokenize_identifier(&mut self)
        requires
            old(self).wf(),
            old(self).cursor() < old(self).source().len(),
        ensures
            final(self).wf(),
            final(self).source() == old(self).source(),
            final(self).cursor() == run_end(
                old(self).source(),
                old(self).cursor(),
                CharClass::IdentStart,
            ),
            final(self).spans() == old(self).spans().push(
                Lexeme {
                    tag: TokenTag::Identifier,
                    start: old(self).cursor(),
                    end: final(self).cursor(),
                },
            ),
            final(self).pending() == old(self).pending().push(
                TokenView {
                    tag: TokenTag::Identifier,
                    raw: old(self).source().subrange(old(self).cursor(), final(self).cursor()),
                },
            ),
    {
        let (start, end) = self.tokenize_while(
            |c: char| -> (b: bool)
                ensures
                    b == (class_of(c) == CharClass::IdentStart)
            {
                classify(c) == CharClass::IdentStart
            },
        );
        proof {
            lemma_run_end_unique(self.source(), start as int, end as int, CharClass::IdentStart);
        }
        self.emit(TokenTag::Identifier, start, end);
    }

    /// Reads one punctuation character and appends its token to the queue.
    /// A character that is not in the punctuation table is left unread and
    /// reported with its position.
    fn tokenize_special(&mut self) -> (res: Result<(), LexError>)
        requires
            old(self).wf(),
            old(self).cursor() < old(self).source().len(),
        ensures
            final(self).wf(),
            final(self).source() == old(self).source(),
            match punct_tag(old(self).source()[old(self).cursor()]) {
                Some(tag) => {
                    &&& res.is_ok()
                    &&& final(self).cursor() == old(self).cursor() + 1
                    &&& final(self).spans() == old(self).spans().push(
                        Lexeme { tag, start: old(self).cursor(), end: old(self).cursor() + 1 },
                    )
                    &&& final(self).pending() == old(self).pending().push(
                        TokenView {
                            tag,
                            raw: old(self).source().subrange(
                                old(self).cursor(),
                                old(self).cursor() + 1,
                            ),
                        },
                    )
                },
                None => {
                    &&& res == Err::<(), LexError>(
                        LexError::UnrecognizedCharacter {
                            character: old(self).source()[old(self).cursor()],
                            offset: old(self).cursor() as usize,
                        },
                    )
                    &&& final(self).cursor() == old(self).cursor()
                    &&& final(self).spans() == old(self).spans()
                    &&& final(self).pending() == old(self).pending()
                },
            },
    {
        let start = self.index;
        let first = self.peek_char().unwrap();
        let tag = match lookup_punct(first) {
            Some(tag) => tag,
            None => {
                return Err(LexError::UnrecognizedCharacter { character: first, offset: start });
            },
        };
        self.eat_char();
        let end = self.index;
        self.emit(tag, start, end);
        Ok(())
    }

    /// Reads the token that starts at the cursor and appends it to the
    /// queue. The cursor must stand before a character that is not
    /// whitespace.
    fn tokenize_next(&mut self) -> (res: Result<(), LexError>)
        requires
            old(self).wf(),
            old(self).cursor() < old(self).source().len(),
            class_of(old(self).source()[old(self).cursor()]) != CharClass::Whitespace,
        ensures
            final(self).wf(),
            final(self).source() == old(self).source(),
            match lexeme_at(old(self).source(), old(self).cursor()) {
                Some(lexeme) => {
                    &&& res.is_ok()
                    &&& final(self).cursor() == lexeme.end
                    &&& final(self).spans() == old(self).spans().push(lexeme)
                    &&& final(self).pending() == old(self).pending().push(
                        lexeme.token(old(self).source()),
                    )
                },
                None => {
                    &&& res == Err::<(), LexError>(
                        LexError::UnrecognizedCharacter {
                            character: old(self).source()[old(self).cursor()],
                            offset: old(self).cursor() as usize,
                        },
                    )
                    &&& final(self).cursor() == old(self).cursor()
                    &&& final(self).spans() == old(self).spans()
                    &&& final(self).pending() == old(self).pending()
                },
            },
    {
        let c = self.peek_char().unwrap();
        match classify(c) {
            CharClass::Digit => {
                self.tokenize_number();
                Ok(())
            },
            CharClass::IdentStart => {
                self.tokenize_identifier();
                Ok(())
            },
            _ => self.tokenize_special(),
        }
    }

    /// Scans the rest of the source: skips whitespace, reads one token and
    /// appends it to the queue, and so on until the text ends. A character
    /// that starts no token ends the run at once: the cursor stays before
    /// it, and the tokens found up to there stay in the queue.
    pub fn process(&mut self) -> (res: Result<(), LexError>)
        requires
            old(self).wf(),
        ensures
            final(self).wf(),
            final(self).source() == old(self).source(),
            old(self).cursor() <= final(self).cursor() <= old(self).source().len(),
            final(self).cursor() == scan(old(self).source(), old(self).cursor()).stop,
            final(self).spans() == old(self).spans() + scan(
                old(self).source(),
                old(self).cursor(),
            ).lexemes,
            final(self).pending() == old(self).pending() + tokens_of(
                old(self).source(),
                scan(old(self).source(), old(self).cursor()).lexemes,
            ),
            res == (if final(self).cursor() == old(self).source().len() {
                Ok::<(), LexError>(())
            } else {
                Err::<(), LexError>(
                    LexError::UnrecognizedCharacter {
                        character: old(self).source()[final(self).cursor()],
                        offset: final(self).cursor() as usize,
                    },
                )
            }),
            forall|k: int|
                old(self).cursor() <= k < final(self).cursor() ==> class_of(
                    #[trigger] old(self).source()[k],
                ) != CharClass::Other,
            res.is_err() ==> class_of(old(self).source()[final(self).cursor()])
                == CharClass::Other,
    {
        while self.peek_char().is_some()
            invariant
                old(self).wf(),
                self.wf(),
                self.source() == old(self).source(),
                old(self).cursor() <= self.cursor() <= self.source().len(),
                scan(self.source(), old(self).cursor()).stop == scan(
                    self.source(),
                    self.cursor(),
                ).stop,
                old(self).spans() + scan(self.source(), old(self).cursor()).lexemes
                    == self.spans() + scan(self.source(), self.cursor()).lexemes,
            decreases self.source().len() - self.cursor(),
        {
            let ghost before = self.cursor();
            let ghost found = self.spans();
            proof {
                lemma_run_end(self.source(), before, CharClass::Whitespace);
            }
            self.clear_whitespace();
            if self.peek_char().is_some() {
                proof {
                    lemma_run_end(self.source(), self.cursor(), CharClass::Digit);
                    lemma_run_end(self.source(), self.cursor(), CharClass::IdentStart);
                }
                match self.tokenize_next() {
                    Ok(()) => {
                        proof {
                            let rest = scan(self.source(), self.cursor()).lexemes;
                            assert(found + scan(self.source(), before).lexemes =~= self.spans()
                                + rest);
                        }
                    },
                    Err(e) => {
                        proof {
                            let extra = scan(self.source(), old(self).cursor()).lexemes;
                            old(self).lemma_pending_follows_spans(*self, extra);
                            lemma_scan_stops_at_first_unrecognized(
                                self.source(),
                                old(self).cursor(),
                            );
                        }
                        return Err(e);
                    },
                }
            }
        }
        proof {
            let extra = scan(self.source(), old(self).cursor()).lexemes;
            old(self).lemma_pending_follows_spans(*self, extra);
            lemma_scan_stops_at_first_unrecognized(self.source(), old(self).cursor());
        }
        Ok(())
    }

    /// Where a tokenizer has gained the spans `extra`, its queue has gained
    /// their tokens.
    proof fn lemma_pending_follows_spans(&self, after: Self, extra: Seq<Lexeme>)
        requires
            self.wf(),
            after.wf(),
            after.source() == self.source(),
            after.spans() == self.spans() + extra,
        ensures
            after.pending() == self.pending() + tokens_of(self.source(), extra),
    {
    }
}

} // verus!
