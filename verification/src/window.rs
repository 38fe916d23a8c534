//! Why reading the input through a window gives what reading the input
//! itself gives.
//!
//! A window is a chunk of the input that either reaches the end of the
//! input or ends in a white space character. No lexeme and no comment
//! delimiter holds white space, so none is cut by the end of a window, and
//! the grammar sees inside the window what it sees in the whole input.

use crate::classifier::token_at;
use crate::grammar::{
    exponent_digits, exponent_end, fraction_end, lemma_run_end, lexeme_end, lexeme_kind,
    number_end, run_end, skip_step, CharClass, Mode,
};
use crate::text::is_space;
use crate::token::Tag;
use vstd::prelude::*;

verus! {

/// `w` is the chunk of the input `s` that starts at offset `base`, and its
/// end cuts no lexeme.
pub open spec fn is_window(s: Seq<char>, base: int, w: Seq<char>) -> bool {
    &&& 0 <= base
    &&& base + w.len() <= s.len()
    &&& w == s.subrange(base, base + w.len())
    &&& (w.len() > 0 && base + w.len() < s.len() ==> is_space(w.last()))
}

/// A run of digits or letters that starts inside a window ends where it
/// ends in the input.
pub proof fn lemma_run_in_window(s: Seq<char>, base: int, w: Seq<char>, p: int, class: CharClass)
    requires
        is_window(s, base, w),
        0 <= p <= w.len(),
        p == w.len() ==> base + p == s.len(),
    ensures
        run_end(s, base + p, class) == base + run_end(w, p, class),
    decreases w.len() - p,
{
    if p < w.len() {
        assert(w[p] == s[base + p]);
        if in_class_here(w, p, class) {
            if p + 1 == w.len() && base + w.len() < s.len() {
                assert(is_space(w.last()));
            }
            lemma_run_in_window(s, base, w, p + 1, class);
        }
    }
}

spec fn in_class_here(w: Seq<char>, p: int, class: CharClass) -> bool {
    crate::grammar::in_class(w[p], class)
}

/// A run that starts inside a window reaches the end of the window only
/// where the input ends there.
pub proof fn lemma_run_stops(s: Seq<char>, base: int, w: Seq<char>, p: int, class: CharClass)
    requires
        is_window(s, base, w),
        0 <= p < w.len(),
        run_end(w, p, class) == w.len(),
    ensures
        base + w.len() == s.len(),
{
    lemma_run_end(w, p, class);
    assert(in_class_here(w, w.len() - 1, class));
}

/// The fraction after an integer part inside a window ends where it ends
/// in the input.
pub proof fn lemma_fraction_in_window(s: Seq<char>, base: int, w: Seq<char>, a: int)
    requires
        is_window(s, base, w),
        0 <= a <= w.len(),
        a == w.len() ==> base + a == s.len(),
    ensures
        fraction_end(s, base + a) == base + fraction_end(w, a),
        a <= fraction_end(w, a) <= w.len(),
        fraction_end(w, a) == w.len() ==> base + w.len() == s.len(),
{
    if a < w.len() {
        assert(w[a] == s[base + a]);
        if a + 1 < w.len() {
            assert(w[a + 1] == s[base + a + 1]);
            lemma_run_in_window(s, base, w, a + 1, CharClass::Digit);
            lemma_run_end(w, a + 1, CharClass::Digit);
            if run_end(w, a + 1, CharClass::Digit) == w.len() {
                lemma_run_stops(s, base, w, a + 1, CharClass::Digit);
            }
        } else if base + w.len() < s.len() {
            assert(is_space(w.last()));
        }
    }
}

/// The exponent at a position inside a window ends where it ends in the
/// input.
pub proof fn lemma_exponent_in_window(s: Seq<char>, base: int, w: Seq<char>, b: int)
    requires
        is_window(s, base, w),
        0 <= b <= w.len(),
        b == w.len() ==> base + b == s.len(),
    ensures
        exponent_end(s, base + b) == base + exponent_end(w, b),
        b <= exponent_end(w, b) <= w.len(),
{
    if b < w.len() {
        assert(w[b] == s[base + b]);
        if b + 1 == w.len() && base + w.len() < s.len() {
            assert(is_space(w.last()));
        }
        if w[b] == 'e' || w[b] == 'E' {
            if b + 1 < w.len() {
                assert(w[b + 1] == s[base + b + 1]);
            }
            let d = exponent_digits(w, b);
            assert(exponent_digits(s, base + b) == base + d);
            if d == w.len() && base + w.len() < s.len() {
                assert(is_space(w.last()));
            }
            if d < w.len() {
                assert(w[d] == s[base + d]);
                lemma_run_in_window(s, base, w, d, CharClass::Digit);
                lemma_run_end(w, d, CharClass::Digit);
            }
        }
    }
}

/// A numeric literal that starts inside a window ends where it ends in the
/// input.
pub proof fn lemma_number_in_window(s: Seq<char>, base: int, w: Seq<char>, p: int)
    requires
        is_window(s, base, w),
        0 <= p < w.len(),
    ensures
        number_end(s, base + p) == base + number_end(w, p),
{
    lemma_run_in_window(s, base, w, p, CharClass::Digit);
    lemma_run_end(w, p, CharClass::Digit);
    let a = run_end(w, p, CharClass::Digit);
    if a == w.len() {
        lemma_run_stops(s, base, w, p, CharClass::Digit);
    }
    lemma_fraction_in_window(s, base, w, a);
    lemma_exponent_in_window(s, base, w, fraction_end(w, a));
}

/// The lexeme that starts at a position of a window is the one that starts
/// there in the input.
pub proof fn lemma_lexeme_in_window(s: Seq<char>, base: int, w: Seq<char>, p: int)
    requires
        is_window(s, base, w),
        0 <= p <= w.len(),
        p == w.len() ==> base + p == s.len(),
    ensures
        lexeme_kind(s, base + p) == lexeme_kind(w, p),
        lexeme_end(s, base + p) == base + lexeme_end(w, p),
        s.subrange(base + p, lexeme_end(s, base + p)) == w.subrange(p, lexeme_end(w, p)),
{
    crate::grammar::lemma_lexeme_end(w, p);
    if p < w.len() {
        assert(forall|i: int| 0 <= i < w.len() ==> w[i] == s[base + i]);
        if p + 1 == w.len() && base + w.len() < s.len() {
            assert(is_space(w.last()));
        }
        if crate::text::is_digit(w[p]) {
            lemma_number_in_window(s, base, w, p);
        } else if crate::text::is_letter(w[p]) {
            if p + 1 == w.len() && base + w.len() < s.len() {
                assert(is_space(w.last()));
            }
            lemma_run_in_window(s, base, w, p + 1, CharClass::LetterOrDigit);
        }
    }
    assert(s.subrange(base + p, base + lexeme_end(w, p)) =~= w.subrange(p, lexeme_end(w, p)));
}

/// The token that starts at a position of a window is the one that starts
/// there in the input.
pub proof fn lemma_token_in_window(
    s: Seq<char>,
    base: int,
    w: Seq<char>,
    p: int,
    keywords: Map<Seq<char>, Tag>,
)
    requires
        is_window(s, base, w),
        0 <= p <= w.len(),
        p == w.len() ==> base + p == s.len(),
    ensures
        token_at(s, base + p, 0, keywords) == token_at(w, p, base, keywords),
{
    lemma_lexeme_in_window(s, base, w, p);
    if p < w.len() {
        assert(w[p] == s[base + p]);
    }
}

/// A step of skipping inside a window is the step that the input takes at
/// that position.
pub proof fn lemma_step_in_window(s: Seq<char>, base: int, w: Seq<char>, p: int, mode: Mode)
    requires
        is_window(s, base, w),
        0 <= p < w.len(),
    ensures
        match skip_step(w, p, base, mode) {
            Some((q, next)) => skip_step(s, base + p, 0, mode) == Some((base + q, next)),
            None => skip_step(s, base + p, 0, mode) is None,
        },
{
    assert(w[p] == s[base + p]);
    if p + 1 < w.len() {
        assert(w[p + 1] == s[base + p + 1]);
    } else if base + w.len() < s.len() {
        assert(is_space(w.last()));
    }
}

} // verus!
