//! A calculator for postfix sums and differences of single digits.
//!
//! Digits are kept on a stack. The first operator joins the two digits on
//! top of the stack; every later one joins the digit on top with the
//! result so far, the digit on the left: `26378-++-` is
//! `2 - (6 + (3 + (7 - 8)))`. Blanks are ignored.

use crate::text::{char_digit_value, char_is_digit, digit_value, is_digit};
use vstd::prelude::*;

verus! {

/// The calculator between two characters.
pub ghost struct Machine {
    /// The digits that wait on the stack, the last one on top.
    pub stack: Seq<int>,
    /// Whether an operator has been applied.
    pub joined: bool,
    /// The result so far.
    pub result: int,
}

/// The calculator before the first character.
pub open spec fn start() -> Machine {
    Machine { stack: Seq::empty(), joined: false, result: 0 }
}

/// Whether `n` can be held in 32 bits with sign.
pub open spec fn fits(n: int) -> bool {
    i32::MIN <= n <= i32::MAX
}

/// The calculator after it has read `c`; `None` where `c` is no digit,
/// operator or blank, where the stack holds too few digits for an operator,
/// or where a result does not fit.
pub open spec fn step(m: Machine, c: char) -> Option<Machine> {
    if c == ' ' {
        Some(m)
    } else if is_digit(c) {
        Some(Machine { stack: m.stack.push(digit_value(c) as int), ..m })
    } else if c == '-' || c == '+' {
        if !m.joined {
            if m.stack.len() >= 2 {
                let top = m.stack[m.stack.len() - 1];
                let below = m.stack[m.stack.len() - 2];
                Some(
                    Machine {
                        stack: m.stack.take(m.stack.len() - 2),
                        joined: true,
                        result: if c == '-' {
                            below - top
                        } else {
                            top + below
                        },
                    },
                )
            } else {
                None
            }
        } else if m.stack.len() >= 1 {
            let top = m.stack[m.stack.len() - 1];
            let result = if c == '-' {
                top - m.result
            } else {
                m.result + top
            };
            if fits(result) {
                Some(Machine { stack: m.stack.drop_last(), joined: true, result })
            } else {
                None
            }
        } else {
            None
        }
    } else {
        None
    }
}

/// The calculator after it has read all of `text`.
pub open spec fn run(text: Seq<char>) -> Option<Machine>
    decreases text.len(),
{
    if text.len() == 0 {
        Some(start())
    } else {
        match run(text.drop_last()) {
            Some(m) => step(m, text.last()),
            None => None,
        }
    }
}

/// The value of the postfix expression `text`, where it has one.
pub open spec fn postfix_value(text: Seq<char>) -> Option<int> {
    match run(text) {
        Some(m) => Some(m.result),
        None => None,
    }
}

/// The digits of a stack as numbers.
pub open spec fn as_ints(stack: Seq<i32>) -> Seq<int> {
    stack.map_values(|d: i32| d as int)
}

/// Evaluates the postfix expression `text`; `None` where it is malformed
/// or a result does not fit.
pub fn evaluate(text: &str) -> (value: Option<i32>)
    ensures
        match value {
            Some(v) => postfix_value(text@) == Some(v as int),
            None => postfix_value(text@) is None,
        },
{
    let chars = crate::text::chars_of(text);
    let mut stack: Vec<i32> = Vec::new();
    let mut joined = false;
    let mut result: i32 = 0;
    let mut i: usize = 0;
    assert(chars@.take(0) =~= Seq::<char>::empty());
    assert(as_ints(stack@) =~= Seq::<int>::empty());
    while i < chars.len()
        invariant
            i <= chars@.len(),
            chars@ == text@,
            run(chars@.take(i as int)) == Some(
                Machine { stack: as_ints(stack@), joined, result: result as int },
            ),
            forall|j: int| 0 <= j < stack@.len() ==> 0 <= #[trigger] stack@[j] <= 9,
        decreases chars@.len() - i,
    {
        let c = chars[i];
        let ghost before = Machine {
            stack: as_ints(stack@),
            joined,
            result: result as int,
        };
        proof {
            assert(chars@.take(i + 1).drop_last() =~= chars@.take(i as int));
            assert(run(chars@.take(i + 1)) == step(before, c));
            assert forall|k: int| i < k <= chars@.len() && step(before, c) is None implies run(
                chars@.take(k),
            ) is None by {
                lemma_run_stays_failed(chars@, i + 1, k);
            }
            assert(chars@.take(chars@.len() as int) =~= chars@);
        }
        if c == ' ' {
        } else if char_is_digit(c) {
            let d = char_digit_value(c);
            stack.push(d as i32);
            assert(as_ints(stack@) =~= before.stack.push(digit_value(c) as int));
        } else if c == '-' || c == '+' {
            if !joined {
                if stack.len() < 2 {
                    return None;
                }
                let top = stack.pop().unwrap();
                let below = stack.pop().unwrap();
                result = if c == '-' {
                    below - top
                } else {
                    top + below
                };
                joined = true;
                assert(as_ints(stack@) =~= before.stack.take(
                    before.stack.len() - 2,
                ));
            } else {
                if stack.len() < 1 {
                    return None;
                }
                let top = stack.pop().unwrap();
                let next = if c == '-' {
                    top.checked_sub(result)
                } else {
                    result.checked_add(top)
                };
                match next {
                    Some(r) => {
                        result = r;
                    },
                    None => {
                        return None;
                    },
                }
                assert(as_ints(stack@) =~= before.stack.drop_last());
            }
        } else {
            return None;
        }
        i += 1;
    }
    assert(chars@.take(i as int) =~= chars@);
    Some(result)
}

/// Once the calculator has failed on a prefix, it has failed on every
/// longer one.
proof fn lemma_run_stays_failed(text: Seq<char>, short: int, long: int)
    requires
        0 <= short <= long <= text.len(),
        run(text.take(short)) is None,
    ensures
        run(text.take(long)) is None,
    decreases long - short,
{
    if short < long {
        lemma_run_stays_failed(text, short, long - 1);
        assert(text.take(long).drop_last() =~= text.take(long - 1));
    }
}

/// The value of the postfix expression `string`.
pub fn arithmetic(string: String) -> (value: i32)
    requires
        postfix_value(string@) is Some,
    ensures
        postfix_value(string@) == Some(value as int),
{
    match evaluate(string.as_str()) {
        Some(value) => value,
        None => 0,
    }
}

} // verus!
