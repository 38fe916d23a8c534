//! Classification: from a text and a position to the token that starts
//! there.

use crate::grammar::{
    lemma_lexeme_end, lexeme_end, lexeme_kind, scan_identifier, scan_number, scan_relop,
};
use crate::keywords::{word_kind, KeywordTable};
use crate::number::{number_value, parse_number};
use crate::text::{char_is_digit, char_is_letter, chars_of, string_of_range};
use crate::token::{ScanError, Tag, Token, TokenView};
use vstd::prelude::*;
use vstd::slice::slice_subrange;

verus! {

/// The token that starts at position `p` of the text `t`, which itself
/// starts at offset `base` of the input.
///
/// At the end of the text this is the end-of-stream token. Where no lexeme
/// starts, it is the error that names the character found. A word is a
/// keyword where `keywords` reserves its spelling, and only a numeric
/// literal has a value.
pub open spec fn token_at(t: Seq<char>, p: int, base: int, keywords: Map<Seq<char>, Tag>) -> Result<
    TokenView,
    ScanError,
> {
    match lexeme_kind(t, p) {
        None => Err(
            ScanError::UnexpectedCharacter { character: t[p], position: (base + p) as usize },
        ),
        Some(kind) => {
            let text = t.subrange(p, lexeme_end(t, p));
            Ok(
                TokenView {
                    kind: if kind == Tag::Identifier {
                        word_kind(keywords, text)
                    } else {
                        kind
                    },
                    text,
                    value: if kind == Tag::Number {
                        number_value(text)
                    } else {
                        None
                    },
                    start: (base + p) as nat,
                },
            )
        },
    }
}

/// Whether a scan result is the one that `expected` describes.
pub open spec fn is_outcome(got: Result<Token, ScanError>, expected: Result<TokenView, ScanError>)
    -> bool {
    match got {
        Ok(token) => expected == Ok::<TokenView, ScanError>(token@),
        Err(error) => expected == Err::<TokenView, ScanError>(error),
    }
}

/// Classifies what starts at `start` in `buffer`, whose first character
/// stands at offset `base` of the input.
pub fn classify(buffer: &[char], start: usize, base: usize, keywords: &KeywordTable) -> (outcome:
    Result<Token, ScanError>)
    requires
        start <= buffer@.len(),
        base + buffer@.len() <= usize::MAX,
        keywords.wf(),
    ensures
        is_outcome(outcome, token_at(buffer@, start as int, base as int, keywords@)),
{
    classify_span(buffer, start, base, keywords).0
}

/// Classifies what starts at `start` in `buffer`, and says where it ends.
pub fn classify_span(buffer: &[char], start: usize, base: usize, keywords: &KeywordTable) -> (found:
    (Result<Token, ScanError>, usize))
    requires
        start <= buffer@.len(),
        base + buffer@.len() <= usize::MAX,
        keywords.wf(),
    ensures
        is_outcome(found.0, token_at(buffer@, start as int, base as int, keywords@)),
        found.1 == lexeme_end(buffer@, start as int),
        start <= found.1 <= buffer@.len(),
{
    proof {
        lemma_lexeme_end(buffer@, start as int);
    }
    let position = base + start;
    if start >= buffer.len() {
        assert(buffer@.subrange(start as int, start as int) =~= Seq::<char>::empty());
        let text = String::new();
        return (Ok(Token { kind: Tag::EndOfStream, text, value: None, start: position }), start);
    }
    let first = buffer[start];
    if char_is_digit(first) {
        let end = scan_number(buffer, start);
        let lexeme = slice_subrange(buffer, start, end);
        let value = parse_number(lexeme);
        let text = string_of_range(buffer, start, end);
        (Ok(Token { kind: Tag::Number, text, value, start: position }), end)
    } else if char_is_letter(first) {
        let end = scan_identifier(buffer, start);
        let text = string_of_range(buffer, start, end);
        let kind = match keywords.lookup(text.as_str()) {
            Some(_) => Tag::Keyword,
            None => Tag::Identifier,
        };
        (Ok(Token { kind, text, value: None, start: position }), end)
    } else {
        match scan_relop(buffer, start) {
            Some(end) => {
                let text = string_of_range(buffer, start, end);
                (Ok(Token { kind: Tag::Relop, text, value: None, start: position }), end)
            },
            None => (Err(ScanError::UnexpectedCharacter { character: first, position }), start),
        }
    }
}

/// Whether the text `t` is one lexeme and nothing else.
pub open spec fn is_lexeme(t: Seq<char>) -> bool {
    t.len() > 0 && lexeme_kind(t, 0) is Some && lexeme_end(t, 0) == t.len()
}

impl Token {
    /// The token that the text `s` is, taken alone and with no word
    /// reserved; `None` where `s` is not one lexeme and nothing else.
    pub fn from_str(s: &str) -> (token: Option<Token>)
        ensures
            match token {
                Some(found) => is_lexeme(s@) && token_at(s@, 0, 0, Map::empty()) == Ok::<
                    TokenView,
                    ScanError,
                >(found@),
                None => !is_lexeme(s@),
            },
    {
        let chars = chars_of(s);
        let keywords = KeywordTable::new();
        let (outcome, end) = classify_span(chars.as_slice(), 0, 0, &keywords);
        if chars.len() > 0 && end == chars.len() {
            match outcome {
                Ok(found) => Some(found),
                Err(_) => None,
            }
        } else {
            None
        }
    }
}

} // verus!
