//! The token grammar, stated over a text and a position in it, and the
//! recognizers that compute it.
//!
//! ```text
//! digit  -> [0-9]
//! number -> digit+ (. digit+)? ((e|E) (+|-)? digit+)?
//! letter -> [A-Za-z]
//! id     -> letter (letter | digit)*
//! relop  -> < | <= | > | >= | == | !=
//! ```
//!
//! Letters and digits are those of ASCII; any other letter or digit starts
//! no lexeme.
//!
//! Between lexemes stand white space, line comments (`//` to the end of the
//! line) and block comments (`/*` to `*/`), which are skipped.
//!
//! Each recognizer takes the longest lexeme its rule allows. The rules do
//! not overlap in their first character, so at most one of them applies at
//! a position.

use crate::text::{char_is_digit, char_is_letter, char_is_space, is_digit, is_letter, is_space};
use crate::token::Tag;
use vstd::prelude::*;

verus! {

/// The character sets that lexemes are runs of.
#[derive(Clone, Copy, Debug, PartialEq, Eq, Structural)]
pub enum CharClass {
    Digit,
    LetterOrDigit,
}

/// Whether `c` belongs to the class.
pub open spec fn in_class(c: char, class: CharClass) -> bool {
    match class {
        CharClass::Digit => is_digit(c),
        CharClass::LetterOrDigit => is_letter(c) || is_digit(c),
    }
}

/// Whether `c` belongs to the class.
pub fn char_in_class(c: char, class: CharClass) -> (b: bool)
    ensures
        b == in_class(c, class),
{
    match class {
        CharClass::Digit => char_is_digit(c),
        CharClass::LetterOrDigit => char_is_letter(c) || char_is_digit(c),
    }
}

/// Where the longest run of `class` characters that starts at `p` ends:
/// the first position at or after `p` that holds no such character.
pub open spec fn run_end(t: Seq<char>, p: int, class: CharClass) -> int
    decreases t.len() - p,
{
    if 0 <= p < t.len() && in_class(t[p], class) {
        run_end(t, p + 1, class)
    } else {
        p
    }
}

/// A run ends inside the text, at or after its start, everything before
/// its end is in the class and the character at its end is not.
pub proof fn lemma_run_end(t: Seq<char>, p: int, class: CharClass)
    requires
        0 <= p <= t.len(),
    ensures
        p <= run_end(t, p, class) <= t.len(),
        forall|i: int| p <= i < run_end(t, p, class) ==> in_class(#[trigger] t[i], class),
        run_end(t, p, class) < t.len() ==> !in_class(t[run_end(t, p, class)], class),
    decreases t.len() - p,
{
    if p < t.len() && in_class(t[p], class) {
        lemma_run_end(t, p + 1, class);
    }
}

/// Where the fraction that follows the integer part ending at `a` ends;
/// `a` itself where no point and digit follow.
pub open spec fn fraction_end(t: Seq<char>, a: int) -> int {
    if 0 <= a && a + 1 < t.len() && t[a] == '.' && is_digit(t[a + 1]) {
        run_end(t, a + 1, CharClass::Digit)
    } else {
        a
    }
}

/// Where the digits of an exponent that starts at `b` begin: after the
/// marker and an optional sign.
pub open spec fn exponent_digits(t: Seq<char>, b: int) -> int {
    if b + 1 < t.len() && (t[b + 1] == '+' || t[b + 1] == '-') {
        b + 2
    } else {
        b + 1
    }
}

/// Where the exponent that follows position `b` ends; `b` itself where no
/// complete exponent stands there.
pub open spec fn exponent_end(t: Seq<char>, b: int) -> int {
    if 0 <= b < t.len() && (t[b] == 'e' || t[b] == 'E') && exponent_digits(t, b) < t.len()
        && is_digit(t[exponent_digits(t, b)]) {
        run_end(t, exponent_digits(t, b), CharClass::Digit)
    } else {
        b
    }
}

/// Where the numeric literal that starts at `p` ends.
pub open spec fn number_end(t: Seq<char>, p: int) -> int {
    exponent_end(t, fraction_end(t, run_end(t, p, CharClass::Digit)))
}

/// Where the identifier that starts at `p` ends.
pub open spec fn identifier_end(t: Seq<char>, p: int) -> int {
    run_end(t, p + 1, CharClass::LetterOrDigit)
}

/// Where the relational operator that starts at `p` ends, if one starts
/// there. The two-character form wins over the one-character form.
pub open spec fn relop_end(t: Seq<char>, p: int) -> Option<int> {
    if 0 <= p < t.len() {
        let followed = p + 1 < t.len() && t[p + 1] == '=';
        if t[p] == '<' || t[p] == '>' {
            Some(if followed { p + 2 } else { p + 1 })
        } else if (t[p] == '=' || t[p] == '!') && followed {
            Some(p + 2)
        } else {
            None
        }
    } else {
        None
    }
}

/// The kind of lexeme that starts at `p`: end of stream at the end of the
/// text, `None` where no rule applies. A word is reported as an identifier;
/// whether it is reserved is decided by the keyword table.
pub open spec fn lexeme_kind(t: Seq<char>, p: int) -> Option<Tag> {
    if p < 0 {
        None
    } else if p >= t.len() {
        Some(Tag::EndOfStream)
    } else if is_digit(t[p]) {
        Some(Tag::Number)
    } else if is_letter(t[p]) {
        Some(Tag::Identifier)
    } else if relop_end(t, p) is Some {
        Some(Tag::Relop)
    } else {
        None
    }
}

/// Where the lexeme that starts at `p` ends; `p` itself where none starts.
pub open spec fn lexeme_end(t: Seq<char>, p: int) -> int {
    match lexeme_kind(t, p) {
        Some(Tag::Number) => number_end(t, p),
        Some(Tag::Identifier) => identifier_end(t, p),
        Some(Tag::Relop) => relop_end(t, p)->0,
        _ => p,
    }
}

/// A lexeme lies inside the text, and is empty only at the end of the text
/// or where no rule applies.
pub proof fn lemma_lexeme_end(t: Seq<char>, p: int)
    requires
        0 <= p <= t.len(),
    ensures
        p <= lexeme_end(t, p) <= t.len(),
        lexeme_kind(t, p) is Some && lexeme_kind(t, p) != Some(Tag::EndOfStream) ==> p
            < lexeme_end(t, p),
{
    if p < t.len() {
        if is_digit(t[p]) {
            let a = run_end(t, p, CharClass::Digit);
            lemma_run_end(t, p, CharClass::Digit);
            lemma_run_end(t, p + 1, CharClass::Digit);
            let b = fraction_end(t, a);
            if b != a {
                lemma_run_end(t, a + 1, CharClass::Digit);
            }
            if exponent_end(t, b) != b {
                lemma_run_end(t, exponent_digits(t, b), CharClass::Digit);
            }
        } else if is_letter(t[p]) {
            lemma_run_end(t, p + 1, CharClass::LetterOrDigit);
        }
    }
}

/// A run goes at least as far as any stretch of `class` characters from its
/// start, and no farther than such a stretch that is followed by another
/// character or by the end of the text.
pub proof fn lemma_run_is_longest(t: Seq<char>, p: int, a: int, class: CharClass)
    requires
        0 <= p <= a <= t.len(),
        forall|i: int| p <= i < a ==> in_class(#[trigger] t[i], class),
    ensures
        a <= run_end(t, p, class),
        a == t.len() || !in_class(t[a], class) ==> run_end(t, p, class) == a,
    decreases a - p,
{
    if p < a {
        assert(in_class(t[p], class));
        lemma_run_is_longest(t, p + 1, a, class);
    } else {
        lemma_run_end(t, p, class);
    }
}

/// Whether `t[from..to]` is one digit or more.
pub open spec fn is_digits(t: Seq<char>, from: int, to: int) -> bool {
    &&& 0 <= from < to <= t.len()
    &&& forall|i: int| from <= i < to ==> is_digit(#[trigger] t[i])
}

/// Whether `t[p..e]` reads as a numeric literal whose integer part ends at
/// `a`, whose fraction ends at `b` (at `a` where it has none), and whose
/// exponent has its digits from `d` on (from `e` on where it has none).
pub open spec fn is_number_in_parts(t: Seq<char>, p: int, a: int, b: int, d: int, e: int) -> bool {
    &&& is_digits(t, p, a)
    &&& (b == a || (t[a] == '.' && is_digits(t, a + 1, b)))
    &&& a <= b <= e <= t.len()
    &&& if e == b {
        d == e
    } else {
        &&& t[b] == 'e' || t[b] == 'E'
        &&& d == b + 1 || (d == b + 2 && (t[b + 1] == '+' || t[b + 1] == '-'))
        &&& is_digits(t, d, e)
    }
}

/// Whether `t[p..e]` is a numeric literal: digits, then optionally a point
/// and digits, then optionally an exponent marker, a sign if any, and
/// digits.
pub open spec fn is_number(t: Seq<char>, p: int, e: int) -> bool {
    exists|a: int, b: int, d: int| is_number_in_parts(t, p, a, b, d, e)
}

/// Longest match: where a digit stands at `p`, the lexeme that the number
/// rule takes there is a numeric literal, and no longer stretch from `p`
/// is one.
pub proof fn law_number_is_longest_literal(t: Seq<char>, p: int)
    requires
        0 <= p < t.len(),
        is_digit(t[p]),
    ensures
        is_number(t, p, number_end(t, p)),
        forall|e: int| number_end(t, p) < e ==> !#[trigger] is_number(t, p, e),
{
    let a = run_end(t, p, CharClass::Digit);
    let b = fraction_end(t, a);
    let end = exponent_end(t, b);
    lemma_run_end(t, p, CharClass::Digit);
    lemma_run_end(t, p + 1, CharClass::Digit);
    if b != a {
        lemma_run_end(t, a + 1, CharClass::Digit);
        lemma_run_end(t, a + 2, CharClass::Digit);
    }
    let d = if end == b {
        end
    } else {
        exponent_digits(t, b)
    };
    if end != b {
        lemma_run_end(t, d, CharClass::Digit);
        lemma_run_end(t, d + 1, CharClass::Digit);
    }
    assert(is_number_in_parts(t, p, a, b, d, end));
    assert forall|e: int| end < e implies !#[trigger] is_number(t, p, e) by {
        if is_number(t, p, e) {
            let (a2, b2, d2) = choose|a2: int, b2: int, d2: int|
                is_number_in_parts(t, p, a2, b2, d2, e);
            lemma_number_parts_are_found(t, p, a2, b2, d2, e);
        }
    }
}

/// A numeric literal from `p` ends no later than the lexeme that the number
/// rule takes there.
pub proof fn lemma_number_parts_are_found(t: Seq<char>, p: int, a: int, b: int, d: int, e: int)
    requires
        is_number_in_parts(t, p, a, b, d, e),
    ensures
        e <= number_end(t, p),
{
    let run = run_end(t, p, CharClass::Digit);
    lemma_run_is_longest(t, p, a, CharClass::Digit);
    lemma_run_end(t, p, CharClass::Digit);
    let fraction = fraction_end(t, run);
    if b != a {
        assert(run == a);
        assert(is_digit(t[a + 1]));
        lemma_run_is_longest(t, a + 1, b, CharClass::Digit);
        lemma_run_end(t, a + 1, CharClass::Digit);
    } else if fraction != run {
        lemma_run_end(t, run + 1, CharClass::Digit);
    }
    assert(b <= fraction);
    if e != b {
        assert(fraction == b);
        assert(is_digit(t[d]));
        assert(exponent_digits(t, b) == d);
        lemma_run_is_longest(t, d, e, CharClass::Digit);
    } else if exponent_end(t, fraction) != fraction {
        lemma_run_end(t, exponent_digits(t, fraction), CharClass::Digit);
    }
}

/// The end of the longest run of `class` characters of `t` from `p` on.
pub fn scan_run(t: &[char], p: usize, class: CharClass) -> (e: usize)
    requires
        p <= t@.len(),
    ensures
        e == run_end(t@, p as int, class),
        p <= e <= t@.len(),
{
    let mut e: usize = p;
    while e < t.len() && char_in_class(t[e], class)
        invariant
            p <= e <= t@.len(),
            run_end(t@, e as int, class) == run_end(t@, p as int, class),
        decreases t@.len() - e,
    {
        e += 1;
    }
    e
}

/// The end of the fraction after an integer part that ends at `a`.
pub fn scan_fraction(t: &[char], a: usize) -> (b: usize)
    requires
        a <= t@.len(),
    ensures
        b == fraction_end(t@, a as int),
        a <= b <= t@.len(),
{
    if a < t.len() && t.len() - a > 1 && t[a] == '.' && char_is_digit(t[a + 1]) {
        scan_run(t, a + 1, CharClass::Digit)
    } else {
        a
    }
}

/// The end of the exponent that starts at `b`.
pub fn scan_exponent(t: &[char], b: usize) -> (c: usize)
    requires
        b <= t@.len(),
    ensures
        c == exponent_end(t@, b as int),
        b <= c <= t@.len(),
{
    if b < t.len() && (t[b] == 'e' || t[b] == 'E') {
        let d: usize = if t.len() - b > 1 && (t[b + 1] == '+' || t[b + 1] == '-') {
            b + 2
        } else {
            b + 1
        };
        if d < t.len() && char_is_digit(t[d]) {
            scan_run(t, d, CharClass::Digit)
        } else {
            b
        }
    } else {
        b
    }
}

/// The end of the numeric literal that starts at `p`.
pub fn scan_number(t: &[char], p: usize) -> (e: usize)
    requires
        p <= t@.len(),
    ensures
        e == number_end(t@, p as int),
        p <= e <= t@.len(),
{
    let a = scan_run(t, p, CharClass::Digit);
    let b = scan_fraction(t, a);
    scan_exponent(t, b)
}

/// The end of the identifier that starts at `p`.
pub fn scan_identifier(t: &[char], p: usize) -> (e: usize)
    requires
        p < t@.len(),
    ensures
        e == identifier_end(t@, p as int),
        p < e <= t@.len(),
{
    let n = t.len();
    assert(p < n);
    scan_run(t, p + 1, CharClass::LetterOrDigit)
}

/// The end of the relational operator that starts at `p`, if there is one.
pub fn scan_relop(t: &[char], p: usize) -> (e: Option<usize>)
    requires
        p <= t@.len(),
    ensures
        match e {
            Some(end) => relop_end(t@, p as int) == Some(end as int) && p < end <= t@.len(),
            None => relop_end(t@, p as int) is None,
        },
{
    if p < t.len() {
        let followed = t.len() - p > 1 && t[p + 1] == '=';
        let c = t[p];
        if c == '<' || c == '>' {
            Some(if followed { p + 2 } else { p + 1 })
        } else if (c == '=' || c == '!') && followed {
            Some(p + 2)
        } else {
            None
        }
    } else {
        None
    }
}

/// What the scan is in the middle of while it skips what stands between
/// lexemes.
#[derive(Clone, Copy, Debug, PartialEq, Eq, Structural)]
pub enum Mode {
    /// Between lexemes, outside any comment.
    Normal,
    /// Inside a line comment.
    LineComment,
    /// Inside the block comment that was opened at offset `start` of the
    /// input.
    BlockComment { start: usize },
}

/// How skipping ends: at the position where the next lexeme starts (the end
/// of the text, where none is left), or inside a block comment that the
/// text does not close.
pub ghost enum Skip {
    Lexeme { at: int },
    Unterminated { start: usize },
}

/// One step of skipping at position `p` of the text `t`, which itself
/// starts at offset `base` of the input: the position and mode after the
/// step, or `None` where a lexeme starts at `p`.
pub open spec fn skip_step(t: Seq<char>, p: int, base: int, mode: Mode) -> Option<(int, Mode)> {
    let paired = p + 1 < t.len();
    match mode {
        Mode::Normal => if is_space(t[p]) {
            Some((p + 1, Mode::Normal))
        } else if t[p] == '/' && paired && t[p + 1] == '/' {
            Some((p + 2, Mode::LineComment))
        } else if t[p] == '/' && paired && t[p + 1] == '*' {
            Some((p + 2, Mode::BlockComment { start: (base + p) as usize }))
        } else {
            None
        },
        Mode::LineComment => if t[p] == '\n' {
            Some((p + 1, Mode::Normal))
        } else {
            Some((p + 1, Mode::LineComment))
        },
        Mode::BlockComment { start } => if t[p] == '*' && paired && t[p + 1] == '/' {
            Some((p + 2, Mode::Normal))
        } else {
            Some((p + 1, mode))
        },
    }
}

/// Skipping from position `p` of the input `s` on, in the given mode, to
/// its end.
pub open spec fn skip_from(s: Seq<char>, p: int, mode: Mode) -> Skip
    decreases s.len() - p,
{
    if 0 <= p < s.len() {
        match skip_step(s, p, 0, mode) {
            Some((q, next)) => if q > p {
                skip_from(s, q, next)
            } else {
                Skip::Lexeme { at: p }
            },
            None => Skip::Lexeme { at: p },
        }
    } else {
        match mode {
            Mode::BlockComment { start } => Skip::Unterminated { start },
            _ => Skip::Lexeme { at: p },
        }
    }
}

/// The position up to which skipping reads: where the next lexeme starts,
/// or the end of the input where a block comment stays open.
pub open spec fn skip_target(s: Seq<char>, p: int, mode: Mode) -> int {
    match skip_from(s, p, mode) {
        Skip::Lexeme { at } => at,
        Skip::Unterminated { .. } => s.len() as int,
    }
}

/// Skipping never goes back, and never past the end of the input.
pub proof fn lemma_skip_target(s: Seq<char>, p: int, mode: Mode)
    requires
        0 <= p <= s.len(),
    ensures
        p <= skip_target(s, p, mode) <= s.len(),
    decreases s.len() - p,
{
    if p < s.len() {
        match skip_step(s, p, 0, mode) {
            Some((q, next)) => {
                lemma_skip_target(s, q, next);
            },
            None => {},
        }
    }
}

/// Where skipping ends, nothing is left to skip.
pub proof fn lemma_skip_settles(s: Seq<char>, p: int, mode: Mode)
    requires
        0 <= p <= s.len(),
    ensures
        skip_from(s, p, mode) matches Skip::Lexeme { at } ==> skip_from(s, at, Mode::Normal)
            == (Skip::Lexeme { at }),
    decreases s.len() - p,
{
    if p < s.len() {
        match skip_step(s, p, 0, mode) {
            Some((q, next)) => {
                lemma_skip_settles(s, q, next);
            },
            None => {},
        }
    }
}

/// One step of skipping at position `p` of `t`.
pub fn skip_once(t: &[char], p: usize, base: usize, mode: Mode) -> (step: Option<(usize, Mode)>)
    requires
        p < t@.len(),
        base + t@.len() <= usize::MAX,
    ensures
        match step {
            Some((q, next)) => skip_step(t@, p as int, base as int, mode) == Some((q as int, next))
                && p < q <= t@.len(),
            None => skip_step(t@, p as int, base as int, mode) is None,
        },
{
    let c = t[p];
    let paired = t.len() - p > 1;
    match mode {
        Mode::Normal => {
            if char_is_space(c) {
                Some((p + 1, Mode::Normal))
            } else if c == '/' && paired && t[p + 1] == '/' {
                Some((p + 2, Mode::LineComment))
            } else if c == '/' && paired && t[p + 1] == '*' {
                Some((p + 2, Mode::BlockComment { start: base + p }))
            } else {
                None
            }
        },
        Mode::LineComment => {
            if c == '\n' {
                Some((p + 1, Mode::Normal))
            } else {
                Some((p + 1, Mode::LineComment))
            }
        },
        Mode::BlockComment { start } => {
            if c == '*' && paired && t[p + 1] == '/' {
                Some((p + 2, Mode::Normal))
            } else {
                Some((p + 1, mode))
            }
        },
    }
}

} // verus!
