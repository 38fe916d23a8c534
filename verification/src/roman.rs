//! Roman-style numerals for the last two decimal digits of a number. Ones
//! are written with the stroke `|`.

use vstd::prelude::*;
use vstd::string::StringExecFns;

verus! {

/// The numeral of the tens digit `d`.
pub open spec fn tens_numeral(d: int) -> Seq<char> {
    if d == 1 {
        "X"@
    } else if d == 2 {
        "XX"@
    } else if d == 3 {
        "XXX"@
    } else if d == 4 {
        "XL"@
    } else if d == 5 {
        "L"@
    } else if d == 6 {
        "LX"@
    } else if d == 7 {
        "LXX"@
    } else if d == 8 {
        "LXXX"@
    } else if d == 9 {
        "XC"@
    } else {
        ""@
    }
}

/// The numeral of the units digit `d`.
pub open spec fn units_numeral(d: int) -> Seq<char> {
    if d == 1 {
        "|"@
    } else if d == 2 {
        "||"@
    } else if d == 3 {
        "|||"@
    } else if d == 4 {
        "|V"@
    } else if d == 5 {
        "V"@
    } else if d == 6 {
        "V|"@
    } else if d == 7 {
        "V||"@
    } else if d == 8 {
        "V|||"@
    } else if d == 9 {
        "|X"@
    } else {
        ""@
    }
}

/// The numeral of `number` modulo one hundred: tens, then units.
pub open spec fn numeral(number: int) -> Seq<char> {
    tens_numeral(number % 100 / 10) + units_numeral(number % 10)
}

fn tens_text(d: i32) -> (text: &'static str)
    ensures
        text@ == tens_numeral(d as int),
{
    match d {
        1 => "X",
        2 => "XX",
        3 => "XXX",
        4 => "XL",
        5 => "L",
        6 => "LX",
        7 => "LXX",
        8 => "LXXX",
        9 => "XC",
        _ => "",
    }
}

fn units_text(d: i32) -> (text: &'static str)
    ensures
        text@ == units_numeral(d as int),
{
    match d {
        1 => "|",
        2 => "||",
        3 => "|||",
        4 => "|V",
        5 => "V",
        6 => "V|",
        7 => "V||",
        8 => "V|||",
        9 => "|X",
        _ => "",
    }
}

/// Writes the last two decimal digits of `number` as a numeral.
pub fn rome(number: i32) -> (text: String)
    requires
        number >= 0,
    ensures
        text@ == numeral(number as int),
{
    let mut text = String::new();
    text.append(tens_text(number % 100 / 10));
    text.append(units_text(number % 10));
    text
}

} // verus!
