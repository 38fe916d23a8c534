//! Tokens, their kinds and payloads, and the errors a scan can end in.

use vstd::prelude::*;

verus! {

/// The kind of a token.
#[derive(Clone, Copy, Debug, PartialEq, Eq, Hash, Structural)]
pub enum Tag {
    Number,
    Identifier,
    Keyword,
    Relop,
    EndOfStream,
}

/// The value of a numeric literal, kept exactly: `mantissa * 10^exponent`.
///
/// `12.5` is `125 * 10^-1`, `2e-3` is `2 * 10^-3`, `123` is `123 * 10^0`.
#[derive(Clone, Copy, Debug, PartialEq, Eq, Hash, Structural)]
pub struct Num {
    pub mantissa: u64,
    pub exponent: i64,
}

impl Num {
    /// The whole number `value`.
    pub fn new(value: u64) -> (n: Num)
        ensures
            n.mantissa == value,
            n.exponent == 0,
    {
        Num { mantissa: value, exponent: 0 }
    }

    /// The number `mantissa * 10^exponent`.
    pub fn scaled(mantissa: u64, exponent: i64) -> (n: Num)
        ensures
            n.mantissa == mantissa,
            n.exponent == exponent,
    {
        Num { mantissa, exponent }
    }
}

/// A lexeme with the kind it stands for: an entry of the keyword table.
#[derive(Clone, Debug, PartialEq, Eq, Hash)]
pub struct Word {
    pub tag: Tag,
    pub word: String,
}

impl Word {
    /// The word spelled `word`, standing for `tag`.
    pub fn new(tag: Tag, word: String) -> (w: Word)
        ensures
            w.tag == tag,
            w.word == word,
    {
        Word { tag, word }
    }

    /// The kind this word stands for.
    pub fn tag(&self) -> (t: Tag)
        ensures
            t == self.tag,
    {
        self.tag
    }

    /// The lexeme, as an owned string.
    pub fn value(&self) -> (s: String)
        ensures
            s@ == self.word@,
    {
        self.word.clone()
    }
}

/// What a token is, apart from where its text is stored.
pub ghost struct TokenView {
    pub kind: Tag,
    pub text: Seq<char>,
    pub value: Option<Num>,
    pub start: nat,
}

/// One classified lexeme: its kind, its literal text, the parsed value of a
/// numeric literal, and the offset of its first character in the input.
#[derive(Clone, Debug, PartialEq, Eq, Hash)]
pub struct Token {
    pub kind: Tag,
    pub text: String,
    pub value: Option<Num>,
    pub start: usize,
}

impl View for Token {
    type V = TokenView;

    open spec fn view(&self) -> TokenView {
        TokenView { kind: self.kind, text: self.text@, value: self.value, start: self.start as nat }
    }
}

impl Token {
    /// The literal text of the token.
    pub fn token(&self) -> (s: String)
        ensures
            s@ == self@.text,
    {
        self.text.clone()
    }

    /// The kind of the token.
    pub fn tag(&self) -> (t: Tag)
        ensures
            t == self@.kind,
    {
        self.kind
    }

    /// Whether this token marks the end of the input.
    pub fn is_end_of_stream(&self) -> (b: bool)
        ensures
            b == (self@.kind == Tag::EndOfStream),
    {
        match self.kind {
            Tag::EndOfStream => true,
            _ => false,
        }
    }
}

/// The ways a scan can fail. Positions are offsets into the input, counted
/// in characters.
#[derive(Clone, Copy, Debug, PartialEq, Eq, Hash, Structural)]
pub enum ScanError {
    /// A block comment was opened at `start_position` and never closed.
    UnterminatedComment { start_position: usize },
    /// No token starts with `character`, found at `position`.
    UnexpectedCharacter { character: char, position: usize },
    /// The stretch of input that starts at `position` holds no white space
    /// within one buffer's length, so no buffer can take it whole.
    BufferOverflowToken { position: usize },
}

impl ScanError {
    /// What went wrong, in words.
    pub fn message(&self) -> (text: String)
        ensures
            text@ == match *self {
                ScanError::UnterminatedComment { .. } => "Unclosed comment"@,
                ScanError::UnexpectedCharacter { .. } => "Unexpected token"@,
                ScanError::BufferOverflowToken { .. } => "Token longer than the buffer"@,
            },
    {
        match *self {
            ScanError::UnterminatedComment { .. } => "Unclosed comment".to_owned(),
            ScanError::UnexpectedCharacter { .. } => "Unexpected token".to_owned(),
            ScanError::BufferOverflowToken { .. } => "Token longer than the buffer".to_owned(),
        }
    }

    /// The offset the error points at.
    pub fn position(&self) -> (p: usize)
        ensures
            p == match *self {
                ScanError::UnterminatedComment { start_position } => start_position,
                ScanError::UnexpectedCharacter { position, .. } => position,
                ScanError::BufferOverflowToken { position } => position,
            },
    {
        match *self {
            ScanError::UnterminatedComment { start_position } => start_position,
            ScanError::UnexpectedCharacter { position, .. } => position,
            ScanError::BufferOverflowToken { position } => position,
        }
    }
}

} // verus!
