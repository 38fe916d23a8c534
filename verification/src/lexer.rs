//! The scanner: it reads its input chunk by chunk through a pair of
//! buffers and hands out one token per call.

use crate::buffer::{chunk_end, lemma_chunk_end, BufferPair};
use crate::classifier::{classify_span, is_outcome, token_at};
use crate::cursor::Cursor;
use crate::grammar::{lemma_skip_target, lexeme_end, skip_from, skip_once, skip_target, Mode, Skip};
use crate::keywords::KeywordTable;
use crate::lines::{
    count_newlines, empty_lines, lemma_newlines_bound, lemma_newlines_split, line_views, lines_of,
    newlines, place, token_views,
};
use crate::stream::{lemma_next_token, scanned, scanned_from, Stream};
use crate::text::{chars_of, string_of_range};
use crate::token::{ScanError, Tag, Token, TokenView, Word};
use crate::window::{is_window, lemma_lexeme_in_window, lemma_step_in_window, lemma_token_in_window};
use vstd::prelude::*;

verus! {

/// The token that follows position `p` of the input `s`: what stands after
/// the white space and the comments that start at `p`.
pub open spec fn next_token(s: Seq<char>, keywords: Map<Seq<char>, Tag>, p: int) -> Result<
    TokenView,
    ScanError,
> {
    match skip_from(s, p, Mode::Normal) {
        Skip::Unterminated { start } => Err(ScanError::UnterminatedComment { start_position: start }),
        Skip::Lexeme { at } => token_at(s, at, 0, keywords),
    }
}

/// Where the scan stands after `next_token`: behind the token, at the
/// character that starts no token, or at the end of the input.
pub open spec fn next_position(s: Seq<char>, p: int) -> int {
    match skip_from(s, p, Mode::Normal) {
        Skip::Unterminated { .. } => s.len() as int,
        Skip::Lexeme { at } => lexeme_end(s, at),
    }
}

/// Loading chunk after chunk, from the one that starts at `r`, until the
/// position `t` is loaded or the input is used up: where the chunk after
/// the last loaded one starts, or the offset at which the input has no
/// chunk.
pub open spec fn refill_until(s: Seq<char>, capacity: int, r: int, t: int) -> Result<int, int>
    decreases s.len() - r,
    when 0 <= r && 0 <= capacity
{
    if r > t || r >= s.len() {
        Ok(r)
    } else {
        match chunk_end(s, r, capacity) {
            Some(next) => {
                proof {
                    lemma_chunk_end(s, r, capacity);
                }
                refill_until(s, capacity, next, t)
            },
            None => Err(r),
        }
    }
}

/// What a scan returns, from position `p` with the next chunk starting at
/// `r`: the next token of the input, unless the input has no chunk where
/// one is needed to reach it.
pub open spec fn scan_outcome(
    s: Seq<char>,
    keywords: Map<Seq<char>, Tag>,
    capacity: int,
    p: int,
    r: int,
) -> Result<TokenView, ScanError> {
    match refill_until(s, capacity, r, skip_target(s, p, Mode::Normal)) {
        Err(offset) => Err(ScanError::BufferOverflowToken { position: offset as usize }),
        Ok(_) => next_token(s, keywords, p),
    }
}

/// Where a scan leaves the position.
pub open spec fn scan_position(s: Seq<char>, capacity: int, p: int, r: int) -> int {
    match refill_until(s, capacity, r, skip_target(s, p, Mode::Normal)) {
        Err(offset) => offset,
        Ok(_) => next_position(s, p),
    }
}

/// Where the next chunk starts after a scan.
pub open spec fn scan_resume(s: Seq<char>, capacity: int, p: int, r: int) -> int {
    match refill_until(s, capacity, r, skip_target(s, p, Mode::Normal)) {
        Err(offset) => offset,
        Ok(next) => next,
    }
}

/// The reservations that a set of spellings asks for: each one is a
/// keyword.
pub open spec fn reserved(spellings: Seq<Seq<char>>) -> Map<Seq<char>, Tag> {
    Map::new(|text: Seq<char>| spellings.contains(text), |text: Seq<char>| Tag::Keyword)
}

/// Reserving one spelling more adds it, unless it is there already.
proof fn lemma_reserved_next(spellings: Seq<Seq<char>>, i: int)
    requires
        0 <= i < spellings.len(),
    ensures
        reserved(spellings.take(i + 1)) == if reserved(spellings.take(i)).contains_key(
            spellings[i],
        ) {
            reserved(spellings.take(i))
        } else {
            reserved(spellings.take(i)).insert(spellings[i], Tag::Keyword)
        },
{
    let shorter = spellings.take(i);
    let longer = spellings.take(i + 1);
    assert forall|text: Seq<char>| longer.contains(text) <==> (shorter.contains(text) || text
        == spellings[i]) by {
        if longer.contains(text) {
            let j = choose|j: int| 0 <= j < longer.len() && longer[j] == text;
            if j < i {
                assert(shorter[j] == text);
            }
        }
        if shorter.contains(text) {
            let j = choose|j: int| 0 <= j < shorter.len() && shorter[j] == text;
            assert(longer[j] == text);
        }
        if text == spellings[i] {
            assert(longer[i] == text);
        }
    }
    assert(reserved(longer) =~= if reserved(shorter).contains_key(spellings[i]) {
        reserved(shorter)
    } else {
        reserved(shorter).insert(spellings[i], Tag::Keyword)
    });
}

/// What a scanner is made with.
pub struct Config {
    /// The number of characters that each of the two buffers holds.
    pub buffer_capacity: usize,
    /// The reserved words.
    pub keyword_set: Vec<String>,
}

impl Config {
    /// The spellings of the reserved words.
    pub open spec fn spellings(&self) -> Seq<Seq<char>> {
        Seq::new(self.keyword_set@.len(), |i: int| self.keyword_set@[i]@)
    }

    /// The reservations that the configuration asks for: each word of the
    /// set is a keyword.
    pub open spec fn reservations(&self) -> Map<Seq<char>, Tag> {
        reserved(self.spellings())
    }

    /// A configuration with the given capacity and reserved words.
    pub fn new(buffer_capacity: usize, keyword_set: Vec<String>) -> (config: Config)
        ensures
            config.buffer_capacity == buffer_capacity,
            config.keyword_set == keyword_set,
    {
        Config { buffer_capacity, keyword_set }
    }

    /// Buffers of 2048 characters and the reserved words `IF`, `THEN` and
    /// `ELSE`.
    pub fn standard() -> (config: Config)
        ensures
            config.buffer_capacity == 2048,
            config.spellings() == seq!["IF"@, "THEN"@, "ELSE"@],
    {
        let mut keyword_set: Vec<String> = Vec::new();
        keyword_set.push("IF".to_owned());
        keyword_set.push("THEN".to_owned());
        keyword_set.push("ELSE".to_owned());
        let config = Config { buffer_capacity: 2048, keyword_set };
        assert(config.spellings() =~= seq!["IF"@, "THEN"@, "ELSE"@]);
        config
    }
}

impl Default for Config {
    /// The standard configuration.
    fn default() -> (config: Config)
        ensures
            config.buffer_capacity == 2048,
            config.spellings() == seq!["IF"@, "THEN"@, "ELSE"@],
    {
        Config::standard()
    }
}

/// A scanner with its input.
pub struct Lexer {
    keywords: KeywordTable,
    source: Vec<char>,
    buffers: BufferPair,
    cursor: Cursor,
    base: usize,
    resume: usize,
}

impl Lexer {
    /// The input that the scanner is bound to.
    pub closed spec fn source(&self) -> Seq<char> {
        self.source@
    }

    /// The reserved spellings and their tags.
    pub closed spec fn keywords(&self) -> Map<Seq<char>, Tag> {
        self.keywords@
    }

    /// The capacity of each buffer.
    pub closed spec fn capacity(&self) -> int {
        self.buffers.capacity() as int
    }

    /// The offset in the input up to which tokens have been handed out.
    pub closed spec fn position(&self) -> int {
        self.base + self.cursor.begin()
    }

    /// The offset in the input at which the next chunk starts.
    pub closed spec fn resume(&self) -> int {
        self.resume as int
    }

    /// The active buffer shows the chunk of the input that ends where the
    /// next one starts, the cursor stands inside it, and no lexeme is under
    /// way.
    pub closed spec fn wf(&self) -> bool {
        &&& self.keywords.wf()
        &&& self.buffers.wf()
        &&& self.buffers.capacity() >= 1
        &&& self.cursor.wf()
        &&& self.cursor.limit() == self.buffers.capacity()
        &&& self.cursor.begin() == self.cursor.ahead()
        &&& self.cursor.ahead() <= self.buffers@.len()
        &&& self.base + self.buffers@.len() == self.resume
        &&& self.resume <= self.source@.len()
        &&& is_window(self.source@, self.base as int, self.buffers@)
    }

    /// The position lies in the loaded part of the input.
    pub proof fn lemma_position(&self)
        requires
            self.wf(),
        ensures
            0 <= self.position() <= self.resume() <= self.source().len(),
            1 <= self.capacity(),
    {
    }

    /// The characters that the active buffer holds.
    pub closed spec fn window(&self) -> Seq<char> {
        self.buffers@
    }

    /// What the scanner has yet to hand out.
    pub open spec fn remaining(&self) -> Stream {
        scanned_from(
            self.source(),
            self.keywords(),
            self.capacity(),
            self.position(),
            self.resume(),
        )
    }

    /// A scanner with the buffers and the reserved words that `config`
    /// asks for, bound to the empty input.
    pub fn new(config: Config) -> (lexer: Lexer)
        requires
            config.buffer_capacity >= 1,
        ensures
            lexer.wf(),
            lexer.source() == Seq::<char>::empty(),
            lexer.keywords() == config.reservations(),
            lexer.capacity() == config.buffer_capacity,
            lexer.position() == 0,
            lexer.resume() == 0,
    {
        let mut keywords = KeywordTable::new();
        let mut i: usize = 0;
        assert(keywords@ =~= reserved(config.spellings().take(0)));
        while i < config.keyword_set.len()
            invariant
                i <= config.keyword_set@.len(),
                keywords.wf(),
                keywords@ == reserved(config.spellings().take(i as int)),
            decreases config.keyword_set@.len() - i,
        {
            proof {
                lemma_reserved_next(config.spellings(), i as int);
            }
            let word = Word::new(Tag::Keyword, config.keyword_set[i].clone());
            keywords.reserve(word);
            i += 1;
        }
        assert(config.spellings().take(i as int) =~= config.spellings());
        let lexer = Lexer {
            keywords,
            source: Vec::new(),
            buffers: BufferPair::new(config.buffer_capacity),
            cursor: Cursor::new(config.buffer_capacity),
            base: 0,
            resume: 0,
        };
        assert(lexer.buffers@ =~= lexer.source@.subrange(0, 0));
        lexer
    }

    /// Binds the scanner to `source` and puts it at the start.
    pub fn load(&mut self, source: &str)
        requires
            old(self).wf(),
        ensures
            final(self).wf(),
            final(self).source() == source@,
            final(self).keywords() == old(self).keywords(),
            final(self).capacity() == old(self).capacity(),
            final(self).position() == 0,
            final(self).resume() == 0,
    {
        self.source = chars_of(source);
        self.buffers.clear();
        self.cursor.reset();
        self.base = 0;
        self.resume = 0;
        assert(self.buffers@ =~= self.source@.subrange(0, 0));
    }

    /// The characters that the active buffer holds, as a string.
    pub fn buffered(&self) -> (text: String)
        requires
            self.wf(),
        ensures
            text@ == self.window(),
    {
        let window = self.buffers.active().window();
        let text = string_of_range(window, 0, window.len());
        assert(window@.subrange(0, window@.len() as int) =~= window@);
        text
    }

    /// Scans the next token.
    ///
    /// The result is the token that follows the current position in the
    /// input, whatever the capacity of the buffers, with one exception:
    /// where the scan needs a chunk of the input and the input has none at
    /// that offset, the result is the buffer overflow error for that
    /// offset.
    pub fn scan(&mut self) -> (outcome: Result<Token, ScanError>)
        requires
            old(self).wf(),
        ensures
            final(self).wf(),
            final(self).source() == old(self).source(),
            final(self).keywords() == old(self).keywords(),
            final(self).capacity() == old(self).capacity(),
            is_outcome(
                outcome,
                scan_outcome(
                    old(self).source(),
                    old(self).keywords(),
                    old(self).capacity(),
                    old(self).position(),
                    old(self).resume(),
                ),
            ),
            final(self).position() == scan_position(
                old(self).source(),
                old(self).capacity(),
                old(self).position(),
                old(self).resume(),
            ),
            final(self).resume() == scan_resume(
                old(self).source(),
                old(self).capacity(),
                old(self).position(),
                old(self).resume(),
            ),
    {
        let ghost s = self.source@;
        let ghost words = self.keywords@;
        let ghost capacity = self.buffers.capacity() as int;
        let ghost began = self.position();
        let ghost chunked = self.resume as int;
        let ghost target = skip_target(s, began, Mode::Normal);
        proof {
            lemma_skip_target(s, began, Mode::Normal);
        }
        let mut mode = Mode::Normal;
        loop
            invariant
                s == old(self).source(),
                words == old(self).keywords(),
                capacity == old(self).capacity(),
                began == old(self).position(),
                chunked == old(self).resume(),
                self.wf(),
                self.source@ == s,
                self.keywords@ == words,
                self.buffers.capacity() == capacity,
                began <= self.position() <= target <= s.len(),
                target == skip_target(s, began, Mode::Normal),
                skip_from(s, self.position(), mode) == skip_from(s, began, Mode::Normal),
                refill_until(s, capacity, self.resume as int, target) == refill_until(
                    s,
                    capacity,
                    chunked,
                    target,
                ),
            ensures
                self.wf(),
                self.source@ == s,
                self.keywords@ == words,
                self.buffers.capacity() == capacity,
                target == skip_target(s, began, Mode::Normal),
                skip_from(s, began, Mode::Normal) == (Skip::Lexeme { at: self.position() }),
                self.position() == s.len() || self.cursor.begin() < self.buffers@.len(),
                refill_until(s, capacity, chunked, target) == Ok::<int, int>(self.resume as int),
            decreases s.len() - self.position(), s.len() - self.resume,
        {
            let begin = self.cursor.lexeme_begin();
            let length = self.buffers.active().len();
            if begin < length {
                let window = self.buffers.active().window();
                proof {
                    lemma_step_in_window(s, self.base as int, window@, begin as int, mode);
                }
                match skip_once(window, begin, self.base, mode) {
                    Some((q, next)) => {
                        proof {
                            self.buffers.lemma_len();
                        }
                        self.cursor.advance_to(q);
                        self.cursor.commit(q);
                        mode = next;
                        proof {
                            lemma_skip_target(s, self.position(), mode);
                        }
                    },
                    None => {
                        break ;
                    },
                }
            } else if self.resume < self.source.len() {
                proof {
                    lemma_chunk_end(s, self.resume as int, capacity);
                }
                match self.buffers.rotate_and_refill(self.source.as_slice(), self.resume) {
                    Ok(next) => {
                        self.base = self.resume;
                        self.resume = next;
                        self.cursor.reset();
                    },
                    Err(error) => {
                        return Err(error);
                    },
                }
            } else {
                match mode {
                    Mode::BlockComment { start } => {
                        return Err(ScanError::UnterminatedComment { start_position: start });
                    },
                    _ => {
                        break ;
                    },
                }
            }
        }
        let begin = self.cursor.lexeme_begin();
        let window = self.buffers.active().window();
        proof {
            lemma_token_in_window(s, self.base as int, window@, begin as int, words);
            lemma_lexeme_in_window(s, self.base as int, window@, begin as int);
        }
        let (outcome, end) = classify_span(window, begin, self.base, &self.keywords);
        proof {
            self.buffers.lemma_len();
        }
        self.cursor.advance_to(end);
        self.cursor.commit(end);
        outcome
    }

    /// Steps over the character at the current position, as a caller may
    /// after a scan has reported it as unexpected. Says whether a character
    /// was there to step over; the position stays where no character of the
    /// active buffer is left.
    pub fn skip_character(&mut self) -> (skipped: bool)
        requires
            old(self).wf(),
        ensures
            final(self).wf(),
            final(self).source() == old(self).source(),
            final(self).keywords() == old(self).keywords(),
            final(self).capacity() == old(self).capacity(),
            final(self).resume() == old(self).resume(),
            skipped == (old(self).position() < old(self).resume()),
            final(self).position() == if skipped {
                old(self).position() + 1
            } else {
                old(self).position()
            },
    {
        let begin = self.cursor.lexeme_begin();
        if begin < self.buffers.active().len() {
            proof {
                self.buffers.lemma_len();
            }
            self.cursor.advance_forward();
            self.cursor.commit(begin + 1);
            true
        } else {
            false
        }
    }

    /// Scans up to the end of the input and returns the tokens in order,
    /// without the end-of-stream token; or the error that a scan met.
    pub fn scan_all(&mut self) -> (result: Result<Vec<Token>, ScanError>)
        requires
            old(self).wf(),
        ensures
            final(self).wf(),
            final(self).source() == old(self).source(),
            final(self).keywords() == old(self).keywords(),
            final(self).capacity() == old(self).capacity(),
            match result {
                Ok(tokens) => old(self).remaining() == (Stream {
                    tokens: token_views(tokens@),
                    error: None,
                }),
                Err(error) => old(self).remaining().error == Some(error),
            },
    {
        let mut tokens: Vec<Token> = Vec::new();
        assert(token_views(tokens@) + self.remaining().tokens =~= self.remaining().tokens);
        loop
            invariant
                self.wf(),
                self.source() == old(self).source(),
                self.keywords() == old(self).keywords(),
                self.capacity() == old(self).capacity(),
                old(self).remaining().tokens == token_views(tokens@) + self.remaining().tokens,
                old(self).remaining().error == self.remaining().error,
            decreases self.source().len() - self.position(),
        {
            let ghost before = *self;
            let ghost seen = token_views(tokens@);
            proof {
                self.lemma_position();
                lemma_next_token(self.source(), self.keywords(), self.position());
            }
            match self.scan() {
                Err(error) => {
                    return Err(error);
                },
                Ok(token) => {
                    if token.is_end_of_stream() {
                        assert(seen + before.remaining().tokens =~= seen);
                        return Ok(tokens);
                    }
                    let ghost rest = self.remaining().tokens;
                    tokens.push(token);
                    assert(token_views(tokens@) =~= seen.push(token@));
                    assert(seen + (seq![token@] + rest) =~= seen.push(token@) + rest);
                },
            }
        }
    }

    /// Binds the scanner to `source`, scans it to its end and returns the
    /// tokens line by line: entry `i` of the result holds, in their order,
    /// the tokens that start on line `i` of the input, counted from zero.
    /// The end-of-stream token is not among them. Where a scan meets an
    /// error, that error is returned.
    pub fn full_scan(&mut self, source: &str) -> (result: Result<Vec<Vec<Token>>, ScanError>)
        requires
            old(self).wf(),
            source@.len() < usize::MAX,
        ensures
            final(self).wf(),
            final(self).source() == source@,
            final(self).keywords() == old(self).keywords(),
            final(self).capacity() == old(self).capacity(),
            match result {
                Ok(lines) => {
                    let stream = scanned(source@, old(self).keywords(), old(self).capacity());
                    stream.error is None && line_views(lines@) == lines_of(source@, stream.tokens)
                },
                Err(error) => scanned(source@, old(self).keywords(), old(self).capacity()).error
                    == Some(error),
            },
    {
        self.load(source);
        let ghost s = self.source@;
        let ghost whole = self.remaining();
        let ghost mut seen = Seq::<TokenView>::empty();
        let mut lines = empty_lines(self.source.as_slice());
        let mut counted: usize = 0;
        let mut line: usize = 0;
        assert(seen + self.remaining().tokens =~= self.remaining().tokens);
        loop
            invariant
                self.wf(),
                self.source@ == s,
                s == source@,
                self.keywords() == old(self).keywords(),
                self.capacity() == old(self).capacity(),
                whole == scanned(source@, old(self).keywords(), old(self).capacity()),
                whole.tokens == seen + self.remaining().tokens,
                whole.error == self.remaining().error,
                line_views(lines@) == lines_of(s, seen),
                counted <= self.position(),
                line == newlines(s, 0, counted as int),
            decreases self.source().len() - self.position(),
        {
            let ghost before = *self;
            proof {
                self.lemma_position();
                lemma_next_token(self.source(), self.keywords(), self.position());
            }
            match self.scan() {
                Err(error) => {
                    return Err(error);
                },
                Ok(token) => {
                    if token.is_end_of_stream() {
                        assert(seen + before.remaining().tokens =~= seen);
                        return Ok(lines);
                    }
                    let ghost rest = self.remaining().tokens;
                    proof {
                        lemma_newlines_split(s, 0, counted as int, token@.start as int);
                        lemma_newlines_bound(s, 0, token@.start as int);
                        assert(seen + (seq![token@] + rest) =~= seen.push(token@) + rest);
                    }
                    line = line + count_newlines(self.source.as_slice(), counted, token.start);
                    counted = token.start;
                    place(&mut lines, line, token, Ghost(s), Ghost(seen));
                    proof {
                        seen = seen.push(token@);
                    }
                },
            }
        }
    }
}

/// Scanning is a function of the input, the reserved words and the buffer
/// capacity: two scanners that agree on these, and on how far they have
/// come, hand out the same tokens.
pub proof fn law_same_input_same_tokens(first: Lexer, second: Lexer)
    requires
        first.source() == second.source(),
        first.keywords() == second.keywords(),
        first.capacity() == second.capacity(),
        first.position() == second.position(),
        first.resume() == second.resume(),
    ensures
        first.remaining() == second.remaining(),
{
}

} // verus!
