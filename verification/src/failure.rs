//! The failure function of a keyword, as pattern matching by
//! Knuth, Morris and Pratt uses it: for each prefix of the keyword, the
//! length of its longest border.
//!
//! A border of a text is a proper prefix of it that is also a suffix of
//! it. `ababaa` has the failure function `0 0 1 2 3 1`.

use crate::text::{chars_of, decimal, push_decimal};
use vstd::prelude::*;

verus! {

/// Whether the prefix of length `k` of `s` has a border of length `b`.
pub open spec fn is_border(s: Seq<char>, k: int, b: int) -> bool {
    &&& 0 <= b < k <= s.len()
    &&& forall|i: int| 0 <= i < b ==> s[i] == #[trigger] s[k - b + i]
}

/// Whether `b` is the length of the longest border of the prefix of length
/// `k` of `s`.
pub open spec fn is_longest_border(s: Seq<char>, k: int, b: int) -> bool {
    &&& is_border(s, k, b)
    &&& forall|c: int| is_border(s, k, c) ==> c <= b
}

/// Whether `table` is the failure function of `s`: entry `i` is the length
/// of the longest border of the prefix of length `i + 1`.
pub open spec fn is_failure_function(s: Seq<char>, table: Seq<usize>) -> bool {
    &&& table.len() == s.len()
    &&& forall|i: int| 0 <= i < table.len() ==> is_longest_border(s, i + 1, #[trigger] table[i] as int)
}

/// The length of the longest border of the prefix of length `k` of `s`.
pub open spec fn longest_border(s: Seq<char>, k: int) -> int {
    choose|b: int| is_longest_border(s, k, b)
}

/// The failure function of `s`.
pub open spec fn failure_values(s: Seq<char>) -> Seq<usize> {
    Seq::new(s.len(), |i: int| longest_border(s, i + 1) as usize)
}

/// A text has one failure function.
pub proof fn lemma_failure_unique(s: Seq<char>, table: Seq<usize>)
    requires
        is_failure_function(s, table),
    ensures
        table == failure_values(s),
{
    assert forall|i: int| 0 <= i < table.len() implies table[i] == failure_values(s)[i] by {
        assert(is_longest_border(s, i + 1, table[i] as int));
        let b = longest_border(s, i + 1);
        assert(is_longest_border(s, i + 1, b));
    }
    assert(table =~= failure_values(s));
}

/// A border of a border is a border.
pub proof fn lemma_border_of_border(s: Seq<char>, k: int, t: int, b: int)
    requires
        is_border(s, k, t),
        is_border(s, t, b),
    ensures
        is_border(s, k, b),
{
    assert forall|i: int| 0 <= i < b implies s[i] == #[trigger] s[k - b + i] by {
        assert(s[i] == s[t - b + i]);
        assert(s[t - b + i] == s[k - t + (t - b + i)]);
    }
}

/// Of two borders of one prefix, the shorter is a border of the longer.
pub proof fn lemma_shorter_border(s: Seq<char>, k: int, t: int, b: int)
    requires
        is_border(s, k, t),
        is_border(s, k, b),
        b < t,
    ensures
        is_border(s, t, b),
{
    assert forall|i: int| 0 <= i < b implies s[i] == #[trigger] s[t - b + i] by {
        assert(s[i] == s[k - b + i]);
        assert(s[t - b + i] == s[k - t + (t - b + i)]);
    }
}

/// A border of a prefix, less its last character, is a border of the
/// prefix that is one character shorter.
pub proof fn lemma_border_shrinks(s: Seq<char>, k: int, b: int)
    requires
        is_border(s, k + 1, b),
        b > 0,
    ensures
        is_border(s, k, b - 1),
        s[b - 1] == s[k],
{
    assert forall|i: int| 0 <= i < b - 1 implies s[i] == #[trigger] s[k - (b - 1) + i] by {
        assert(s[i] == s[k + 1 - b + i]);
    }
    assert(s[b - 1] == s[k + 1 - b + (b - 1)]);
}

/// A border of a prefix grows by one where the characters that follow the
/// border and the prefix agree.
pub proof fn lemma_border_grows(s: Seq<char>, k: int, b: int)
    requires
        is_border(s, k, b),
        k < s.len(),
        s[b] == s[k],
    ensures
        is_border(s, k + 1, b + 1),
{
    assert forall|i: int| 0 <= i < b + 1 implies s[i] == #[trigger] s[k + 1 - (b + 1) + i] by {
        if i < b {
            assert(s[i] == s[k - b + i]);
        }
    }
}

/// Computes the failure function of `keyword`.
pub fn failure_function(keyword: &[char]) -> (table: Vec<usize>)
    ensures
        is_failure_function(keyword@, table@),
        table@ == failure_values(keyword@),
{
    let ghost s = keyword@;
    let n = keyword.len();
    let mut table: Vec<usize> = Vec::new();
    if n == 0 {
        proof {
            lemma_failure_unique(s, table@);
        }
        return table;
    }
    table.push(0);
    let mut t: usize = 0;
    let mut k: usize = 1;
    while k < n
        invariant
            1 <= k <= n == s.len(),
            s == keyword@,
            table@.len() == k,
            t == table@[k - 1],
            forall|i: int| 0 <= i < k ==> is_longest_border(s, i + 1, #[trigger] table@[i] as int),
        decreases n - k,
    {
        let ghost longer: int = k + 1;
        proof {
            assert forall|b: int| b > 0 && #[trigger] is_border(s, longer, b) implies b - 1 <= t by {
                lemma_border_shrinks(s, k as int, b);
            }
        }
        while t > 0 && keyword[k] != keyword[t]
            invariant
                1 <= k < n == s.len(),
                longer == k + 1,
                s == keyword@,
                table@.len() == k,
                is_border(s, k as int, t as int),
                forall|b: int| b > 0 && #[trigger] is_border(s, longer, b) ==> b - 1 <= t,
                forall|i: int|
                    0 <= i < k ==> is_longest_border(s, i + 1, #[trigger] table@[i] as int),
            decreases t,
        {
            let shorter = table[t - 1];
            proof {
                assert(is_longest_border(s, t as int, shorter as int));
                lemma_border_of_border(s, k as int, t as int, shorter as int);
                assert forall|b: int| b > 0 && #[trigger] is_border(s, longer, b) implies b - 1
                    <= shorter by {
                    lemma_border_shrinks(s, k as int, b);
                    if b - 1 == t {
                    } else {
                        lemma_shorter_border(s, k as int, t as int, b - 1);
                    }
                }
            }
            t = shorter;
        }
        if keyword[k] == keyword[t] {
            proof {
                lemma_border_grows(s, k as int, t as int);
            }
            t = t + 1;
        } else {
            proof {
                assert forall|b: int| #[trigger] is_border(s, longer, b) implies b <= 0 by {
                    if b > 0 {
                        lemma_border_shrinks(s, k as int, b);
                    }
                }
            }
            t = 0;
        }
        table.push(t);
        k += 1;
    }
    proof {
        lemma_failure_unique(s, table@);
    }
    table
}

/// The decimal notations of the numbers, one after the other.
pub open spec fn render(values: Seq<usize>) -> Seq<char>
    decreases values.len(),
{
    if values.len() == 0 {
        Seq::empty()
    } else {
        render(values.drop_last()) + decimal(values.last() as nat)
    }
}

/// Writes the numbers in decimal notation, one after the other.
pub fn render_table(values: &Vec<usize>) -> (text: String)
    ensures
        text@ == render(values@),
{
    let mut text = String::new();
    let mut i: usize = 0;
    assert(values@.take(0) =~= Seq::<usize>::empty());
    while i < values.len()
        invariant
            i <= values@.len(),
            text@ == render(values@.take(i as int)),
        decreases values@.len() - i,
    {
        assert(values@.take(i + 1).drop_last() =~= values@.take(i as int));
        push_decimal(&mut text, values[i]);
        i += 1;
    }
    assert(values@.take(i as int) =~= values@);
    text
}

/// The failure function of `s` as a text: the decimal notations of its
/// values one after the other, and `0` for the empty text.
pub open spec fn failure_text(s: Seq<char>) -> Seq<char> {
    if s.len() == 0 {
        seq!['0']
    } else {
        render(failure_values(s))
    }
}

/// The failure function of `input`, written as the decimal notations of
/// its values one after the other. For the empty input this is `0`.
pub fn aho_corasick_failure(input: &str) -> (text: String)
    ensures
        text@ == failure_text(input@),
{
    let chars = chars_of(input);
    let table = failure_function(chars.as_slice());
    proof {
        lemma_failure_unique(chars@, table@);
    }
    if chars.len() == 0 {
        let mut text = String::new();
        push_decimal(&mut text, 0);
        assert(text@ =~= seq!['0']);
        text
    } else {
        render_table(&table)
    }
}

} // verus!
