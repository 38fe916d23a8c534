//! The value of a numeric literal.
//!
//! A literal `i.f e±x` is read exactly, as the integer written by the
//! digits `i` and `f` together, scaled by ten to the power `±x` less the
//! number of digits in `f`.

use crate::grammar::{
    exponent_digits, exponent_end, fraction_end, run_end, scan_exponent, scan_fraction, scan_run,
    CharClass,
};
use crate::text::{char_digit_value, digit_value, is_digit};
use crate::token::Num;
use vstd::prelude::*;

verus! {

/// The number that a sequence of decimal digits writes.
pub open spec fn digits_value(d: Seq<char>) -> nat
    decreases d.len(),
{
    if d.len() == 0 {
        0
    } else {
        digits_value(d.drop_last()) * 10 + digit_value(d.last())
    }
}

/// The digits of the integer part and of the fraction, in order.
pub open spec fn mantissa_digits(t: Seq<char>) -> Seq<char> {
    let a = run_end(t, 0, CharClass::Digit);
    let b = fraction_end(t, a);
    if b > a {
        t.subrange(0, a) + t.subrange(a + 1, b)
    } else {
        t.subrange(0, a)
    }
}

/// How many digits the fraction has.
pub open spec fn fraction_len(t: Seq<char>) -> int {
    let a = run_end(t, 0, CharClass::Digit);
    let b = fraction_end(t, a);
    if b > a {
        b - a - 1
    } else {
        0
    }
}

/// The exponent as it is written, with its sign; zero where none is.
pub open spec fn written_exponent(t: Seq<char>) -> int {
    let b = fraction_end(t, run_end(t, 0, CharClass::Digit));
    let c = exponent_end(t, b);
    if c > b {
        let magnitude = digits_value(t.subrange(exponent_digits(t, b), c));
        if t[b + 1] == '-' {
            -magnitude
        } else {
            magnitude as int
        }
    } else {
        0
    }
}

/// The value of the numeric literal at the head of `t`, where its mantissa
/// fits in 64 bits and its exponent in 64 bits with sign.
pub open spec fn number_value(t: Seq<char>) -> Option<Num> {
    let mantissa = digits_value(mantissa_digits(t));
    let exponent = written_exponent(t) - fraction_len(t);
    if mantissa <= u64::MAX && i64::MIN <= exponent <= i64::MAX {
        Some(Num { mantissa: mantissa as u64, exponent: exponent as i64 })
    } else {
        None
    }
}

/// A number, as long as it stays at or under a bound.
spec fn capped(n: nat, bound: u128) -> Option<u128> {
    if n <= bound {
        Some(n as u128)
    } else {
        None
    }
}

/// Reads the digits `t[from..to]` on top of the digits `done` that `acc`
/// already stands for.
fn accumulate(
    acc: Option<u128>,
    t: &[char],
    from: usize,
    to: usize,
    bound: u128,
    Ghost(done): Ghost<Seq<char>>,
) -> (r: Option<u128>)
    requires
        from <= to <= t@.len(),
        bound <= 0x1_0000_0000_0000_0000_0000,
        forall|i: int| from <= i < to ==> is_digit(#[trigger] t@[i]),
        acc == capped(digits_value(done), bound),
    ensures
        r == capped(digits_value(done + t@.subrange(from as int, to as int)), bound),
{
    let mut r = acc;
    let mut i: usize = from;
    assert(done + t@.subrange(from as int, from as int) =~= done);
    while i < to
        invariant
            from <= i <= to <= t@.len(),
            bound <= 0x1_0000_0000_0000_0000_0000,
            forall|j: int| from <= j < to ==> is_digit(#[trigger] t@[j]),
            r == capped(digits_value(done + t@.subrange(from as int, i as int)), bound),
        decreases to - i,
    {
        let ghost before = done + t@.subrange(from as int, i as int);
        let ghost after = done + t@.subrange(from as int, i + 1);
        assert(after =~= before.push(t@[i as int]));
        assert(after.drop_last() =~= before);
        assert(digits_value(after) == digits_value(before) * 10 + digit_value(t@[i as int]));
        let d = char_digit_value(t[i]);
        r =
        match r {
            Some(v) => {
                let next: u128 = v * 10 + d as u128;
                if next <= bound {
                    Some(next)
                } else {
                    None
                }
            },
            None => None,
        };
        i += 1;
    }
    r
}

/// The value of the numeric literal at the head of `t`.
pub fn parse_number(t: &[char]) -> (v: Option<Num>)
    ensures
        v == number_value(t@),
{
    let a = scan_run(t, 0, CharClass::Digit);
    let b = scan_fraction(t, a);
    let c = scan_exponent(t, b);
    proof {
        crate::grammar::lemma_run_end(t@, 0, CharClass::Digit);
        if b > a {
            crate::grammar::lemma_run_end(t@, a + 1, CharClass::Digit);
        }
        if c > b {
            crate::grammar::lemma_run_end(t@, exponent_digits(t@, b as int), CharClass::Digit);
        }
    }
    let whole = accumulate(Some(0), t, 0, a, 0xffff_ffff_ffff_ffff, Ghost(Seq::empty()));
    assert(Seq::<char>::empty() + t@.subrange(0, a as int) =~= t@.subrange(0, a as int));
    let mantissa = if b > a {
        accumulate(whole, t, a + 1, b, 0xffff_ffff_ffff_ffff, Ghost(t@.subrange(0, a as int)))
    } else {
        whole
    };
    let fraction: usize = if b > a {
        b - a - 1
    } else {
        0
    };
    let mut negative = false;
    let mut magnitude: Option<u128> = Some(0);
    if c > b {
        negative = t[b + 1] == '-';
        let d: usize = if t[b + 1] == '+' || t[b + 1] == '-' {
            b + 2
        } else {
            b + 1
        };
        magnitude = accumulate(Some(0), t, d, c, 0x2_0000_0000_0000_0000, Ghost(Seq::empty()));
        assert(Seq::<char>::empty() + t@.subrange(d as int, c as int) =~= t@.subrange(
            d as int,
            c as int,
        ));
    }
    match (mantissa, magnitude) {
        (Some(m), Some(e)) => {
            let signed: i128 = if negative {
                -(e as i128)
            } else {
                e as i128
            };
            let exponent: i128 = signed - fraction as i128;
            if -0x8000_0000_0000_0000 <= exponent && exponent <= 0x7fff_ffff_ffff_ffff {
                Some(Num::scaled(m as u64, exponent as i64))
            } else {
                None
            }
        },
        _ => None,
    }
}

} // verus!
