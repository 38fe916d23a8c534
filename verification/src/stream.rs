//! The token sequence of an input, and how the sequence that a buffered
//! scanner hands out relates to it.

use crate::buffer::{chunk_end, lemma_chunk_end};
use crate::grammar::{
    lemma_lexeme_end, lemma_skip_settles, lemma_skip_target, skip_from, skip_target, Mode, Skip,
};
use crate::lexer::{
    next_position, next_token, refill_until, scan_outcome, scan_position, scan_resume,
};
use crate::token::{ScanError, Tag, TokenView};
use vstd::prelude::*;

verus! {

/// A token sequence, and the error that ended it if one did.
pub ghost struct Stream {
    pub tokens: Seq<TokenView>,
    pub error: Option<ScanError>,
}

impl Stream {
    /// The stream that starts with `token` and goes on as `self`.
    pub open spec fn after(self, token: TokenView) -> Stream {
        Stream { tokens: seq![token] + self.tokens, error: self.error }
    }

    /// The stream that holds no token and ends as told.
    pub open spec fn ended(error: Option<ScanError>) -> Stream {
        Stream { tokens: Seq::empty(), error }
    }
}

/// A token other than the end-of-stream token has a text, lies inside the
/// input, and the next scan starts behind it.
pub proof fn lemma_next_token(s: Seq<char>, keywords: Map<Seq<char>, Tag>, p: int)
    requires
        0 <= p <= s.len(),
    ensures
        p <= next_position(s, p) <= s.len(),
        match next_token(s, keywords, p) {
            Ok(token) => {
                &&& p <= token.start
                &&& token.start + token.text.len() == next_position(s, p)
                &&& token.kind != Tag::EndOfStream ==> p < next_position(s, p)
                &&& token.kind != Tag::EndOfStream ==> token.text.len() > 0
                &&& token.text == s.subrange(token.start as int, next_position(s, p))
                &&& token.kind == Tag::EndOfStream ==> token.start == s.len()
            },
            Err(_) => true,
        },
{
    lemma_skip_target(s, p, Mode::Normal);
    match skip_from(s, p, Mode::Normal) {
        Skip::Lexeme { at } => {
            lemma_lexeme_end(s, at);
        },
        Skip::Unterminated { .. } => {},
    }
}

/// White space and comments are invisible: the token that follows a
/// position is the token that follows the end of what is skipped from
/// there.
pub proof fn law_skipped_text_is_invisible(s: Seq<char>, keywords: Map<Seq<char>, Tag>, p: int)
    requires
        0 <= p <= s.len(),
        skip_from(s, p, Mode::Normal) is Lexeme,
    ensures
        next_token(s, keywords, p) == next_token(s, keywords, skip_target(s, p, Mode::Normal)),
        next_position(s, p) == next_position(s, skip_target(s, p, Mode::Normal)),
{
    lemma_skip_settles(s, p, Mode::Normal);
}

/// The tokens of the input `s` from position `p` on, up to the end of the
/// input or the first error. The end-of-stream token is not among them.
pub open spec fn tokens_from(s: Seq<char>, keywords: Map<Seq<char>, Tag>, p: int) -> Stream
    decreases s.len() - p,
    when 0 <= p <= s.len()
{
    match next_token(s, keywords, p) {
        Err(error) => Stream::ended(Some(error)),
        Ok(token) => if token.kind == Tag::EndOfStream {
            Stream::ended(None)
        } else {
            proof {
                lemma_next_token(s, keywords, p);
            }
            tokens_from(s, keywords, next_position(s, p)).after(token)
        },
    }
}

/// The tokens of the input `s`.
pub open spec fn tokens_of(s: Seq<char>, keywords: Map<Seq<char>, Tag>) -> Stream {
    tokens_from(s, keywords, 0)
}

/// Where a token ends in the input.
pub open spec fn token_end(token: TokenView) -> int {
    (token.start + token.text.len()) as int
}

/// Tokens come in the order of the input: each one is a stretch of the
/// input at or after the position the sequence starts from, and each one
/// ends before the next one starts.
pub proof fn law_tokens_in_input_order(s: Seq<char>, keywords: Map<Seq<char>, Tag>, p: int)
    requires
        0 <= p <= s.len(),
    ensures
        forall|i: int|
            0 <= i < tokens_from(s, keywords, p).tokens.len() ==> {
                let token = #[trigger] tokens_from(s, keywords, p).tokens[i];
                &&& p <= token.start < token_end(token) <= s.len()
                &&& token.text == s.subrange(token.start as int, token_end(token))
            },
        forall|i: int, j: int|
            0 <= i < j < tokens_from(s, keywords, p).tokens.len() ==> token_end(
                #[trigger] tokens_from(s, keywords, p).tokens[i],
            ) <= (#[trigger] tokens_from(s, keywords, p).tokens[j]).start,
    decreases s.len() - p,
{
    lemma_next_token(s, keywords, p);
    let all = tokens_from(s, keywords, p).tokens;
    match next_token(s, keywords, p) {
        Err(error) => {},
        Ok(token) => {
            if token.kind != Tag::EndOfStream {
                let next = next_position(s, p);
                let rest = tokens_from(s, keywords, next).tokens;
                law_tokens_in_input_order(s, keywords, next);
                assert(all =~= seq![token] + rest);
                assert forall|i: int| 0 <= i < all.len() implies {
                    let found = #[trigger] all[i];
                    &&& p <= found.start < token_end(found) <= s.len()
                    &&& found.text == s.subrange(found.start as int, token_end(found))
                } by {
                    if i > 0 {
                        assert(all[i] == rest[i - 1]);
                    }
                }
                assert forall|i: int, j: int| 0 <= i < j < all.len() implies token_end(
                    #[trigger] all[i],
                ) <= (#[trigger] all[j]).start by {
                    assert(all[j] == rest[j - 1]);
                    if i > 0 {
                        assert(all[i] == rest[i - 1]);
                    }
                }
            }
        },
    }
}

/// What a scanner with buffers of `capacity` characters hands out, scan
/// after scan, from position `p` with the next chunk starting at `r`.
pub open spec fn scanned_from(
    s: Seq<char>,
    keywords: Map<Seq<char>, Tag>,
    capacity: int,
    p: int,
    r: int,
) -> Stream
    decreases s.len() - p,
    when 0 <= p <= s.len()
{
    match scan_outcome(s, keywords, capacity, p, r) {
        Err(error) => Stream::ended(Some(error)),
        Ok(token) => if token.kind == Tag::EndOfStream {
            Stream::ended(None)
        } else {
            proof {
                lemma_next_token(s, keywords, p);
            }
            scanned_from(
                s,
                keywords,
                capacity,
                scan_position(s, capacity, p, r),
                scan_resume(s, capacity, p, r),
            ).after(token)
        },
    }
}

/// What a freshly loaded scanner hands out for the input `s`.
pub open spec fn scanned(s: Seq<char>, keywords: Map<Seq<char>, Tag>, capacity: int) -> Stream {
    scanned_from(s, keywords, capacity, 0, 0)
}

/// Whether the stream was ended by an input that has no chunk where one
/// was needed.
pub open spec fn overflowed(stream: Stream) -> bool {
    stream.error matches Some(ScanError::BufferOverflowToken { .. })
}

/// A scanner whose scans never meet a missing chunk hands out the tokens
/// of the input, and ends as the input's token sequence ends.
pub proof fn lemma_scanned_is_tokens(
    s: Seq<char>,
    keywords: Map<Seq<char>, Tag>,
    capacity: int,
    p: int,
    r: int,
)
    requires
        0 <= p <= s.len(),
        !overflowed(scanned_from(s, keywords, capacity, p, r)),
    ensures
        scanned_from(s, keywords, capacity, p, r) == tokens_from(s, keywords, p),
    decreases s.len() - p,
{
    lemma_next_token(s, keywords, p);
    match scan_outcome(s, keywords, capacity, p, r) {
        Err(error) => {},
        Ok(token) => {
            if token.kind != Tag::EndOfStream {
                lemma_scanned_is_tokens(
                    s,
                    keywords,
                    capacity,
                    scan_position(s, capacity, p, r),
                    scan_resume(s, capacity, p, r),
                );
            }
        },
    }
}

/// Whatever its buffers, a scanner hands out tokens of the input, in their
/// order and from the first one on: it leaves none out and makes none up.
pub proof fn lemma_scanned_prefix(
    s: Seq<char>,
    keywords: Map<Seq<char>, Tag>,
    capacity: int,
    p: int,
    r: int,
)
    requires
        0 <= p <= s.len(),
    ensures
        scanned_from(s, keywords, capacity, p, r).tokens.is_prefix_of(
            tokens_from(s, keywords, p).tokens,
        ),
    decreases s.len() - p,
{
    lemma_next_token(s, keywords, p);
    let here = scanned_from(s, keywords, capacity, p, r);
    let whole = tokens_from(s, keywords, p);
    match scan_outcome(s, keywords, capacity, p, r) {
        Err(error) => {
            assert(here.tokens =~= Seq::<TokenView>::empty());
        },
        Ok(token) => {
            if token.kind != Tag::EndOfStream {
                let next = scan_position(s, capacity, p, r);
                lemma_scanned_prefix(s, keywords, capacity, next, scan_resume(s, capacity, p, r));
                let rest = scanned_from(s, keywords, capacity, next, scan_resume(s, capacity, p, r));
                let all = tokens_from(s, keywords, next);
                assert(here.tokens =~= seq![token] + rest.tokens);
                assert(whole.tokens =~= seq![token] + all.tokens);
                assert forall|i: int| 0 <= i < here.tokens.len() implies here.tokens[i]
                    == whole.tokens[i] by {
                    if i > 0 {
                        assert(rest.tokens[i - 1] == all.tokens[i - 1]);
                    }
                }
            } else {
                assert(here.tokens =~= Seq::<TokenView>::empty());
            }
        },
    }
}

/// With buffers that hold the whole input, no chunk is ever missing.
pub proof fn lemma_whole_input_fits(s: Seq<char>, capacity: int, r: int, t: int)
    requires
        0 <= r,
        s.len() <= capacity,
    ensures
        refill_until(s, capacity, r, t) is Ok,
{
    if !(r > t || r >= s.len()) {
        assert(refill_until(s, capacity, s.len() as int, t) is Ok);
    }
}

/// A scanner whose buffers hold the whole input hands out the tokens of
/// the input.
pub proof fn lemma_scanned_whole(
    s: Seq<char>,
    keywords: Map<Seq<char>, Tag>,
    capacity: int,
    p: int,
    r: int,
)
    requires
        0 <= p <= s.len(),
        0 <= r,
        s.len() <= capacity,
    ensures
        scanned_from(s, keywords, capacity, p, r) == tokens_from(s, keywords, p),
    decreases s.len() - p,
{
    lemma_next_token(s, keywords, p);
    lemma_whole_input_fits(s, capacity, r, skip_target(s, p, Mode::Normal));
    match scan_outcome(s, keywords, capacity, p, r) {
        Err(error) => {},
        Ok(token) => {
            if token.kind != Tag::EndOfStream {
                lemma_refill_bounds(s, capacity, r, skip_target(s, p, Mode::Normal));
                lemma_scanned_whole(
                    s,
                    keywords,
                    capacity,
                    scan_position(s, capacity, p, r),
                    scan_resume(s, capacity, p, r),
                );
            }
        },
    }
}

/// Refilling never moves the start of the next chunk back.
pub proof fn lemma_refill_bounds(s: Seq<char>, capacity: int, r: int, t: int)
    requires
        0 <= r,
        0 <= capacity,
    ensures
        match refill_until(s, capacity, r, t) {
            Ok(next) => r <= next,
            Err(offset) => r <= offset < s.len(),
        },
    decreases s.len() - r,
{
    if !(r > t || r >= s.len()) {
        lemma_chunk_end(s, r, capacity);
        match chunk_end(s, r, capacity) {
            Some(next) => {
                lemma_refill_bounds(s, capacity, next, t);
            },
            None => {},
        }
    }
}

/// Boundary transparency: a scanner with small buffers hands out, token
/// for token, what a scanner hands out whose buffers hold the whole input,
/// unless the small buffers meet a stretch of input that has no chunk; and
/// up to there its tokens are those of the large one.
pub proof fn law_boundary_transparency(
    s: Seq<char>,
    keywords: Map<Seq<char>, Tag>,
    small: int,
    large: int,
)
    requires
        1 <= small,
        s.len() <= large,
    ensures
        scanned(s, keywords, large) == tokens_of(s, keywords),
        !overflowed(scanned(s, keywords, large)),
        !overflowed(scanned(s, keywords, small)) ==> scanned(s, keywords, small) == scanned(
            s,
            keywords,
            large,
        ),
        scanned(s, keywords, small).tokens.is_prefix_of(scanned(s, keywords, large).tokens),
{
    lemma_scanned_whole(s, keywords, large, 0, 0);
    lemma_scanned_prefix(s, keywords, small, 0, 0);
    lemma_tokens_never_overflow(s, keywords, 0);
    if !overflowed(scanned(s, keywords, small)) {
        lemma_scanned_is_tokens(s, keywords, small, 0, 0);
    }
}

/// The token sequence of an input never ends in a buffer overflow: that
/// error belongs to the buffers.
pub proof fn lemma_tokens_never_overflow(s: Seq<char>, keywords: Map<Seq<char>, Tag>, p: int)
    requires
        0 <= p <= s.len(),
    ensures
        !overflowed(tokens_from(s, keywords, p)),
    decreases s.len() - p,
{
    lemma_next_token(s, keywords, p);
    match next_token(s, keywords, p) {
        Err(error) => {},
        Ok(token) => {
            if token.kind != Tag::EndOfStream {
                lemma_tokens_never_overflow(s, keywords, next_position(s, p));
            }
        },
    }
}

} // verus!
