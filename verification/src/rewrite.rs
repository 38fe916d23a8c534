//! Infix to postfix by rewriting: `22+4-14` becomes `22 4 + 14 -`.
//!
//! The text is rewritten with two regular expressions, round after round,
//! until a round leaves it as it is. The first rule moves the first
//! operator that stands between two numbers behind the second number. The
//! second rule does the same, everywhere, for an operator that follows
//! what is already in postfix form.

use vstd::prelude::*;

verus! {

/// The error of the `regex` crate for a pattern that it does not take.
#[verifier::external_type_specification]
#[verifier::external_body]
pub struct ExRegexError(regex::Error);

/// Whether the `regex` crate compiles `pattern`.
pub uninterp spec fn pattern_compiles(pattern: Seq<char>) -> bool;

/// What the `regex` crate makes of `text` when it replaces matches of
/// `pattern` by the expansion of `replacement`: the leftmost `limit`
/// matches, or every match where `limit` is zero.
pub uninterp spec fn replaced(
    pattern: Seq<char>,
    text: Seq<char>,
    limit: usize,
    replacement: Seq<char>,
) -> Seq<char>;

/// Compiles `pattern` with `regex::Regex::new` and rewrites `text` with
/// `regex::Regex::replacen`.
///
/// The contract claims that the call fails exactly for the patterns that
/// the crate does not compile, and otherwise names the text that comes
/// back; it says nothing of what that text is. `Regex::replace` is
/// `replacen` with the limit one, `Regex::replace_all` with the limit
/// zero.
#[verifier::external_body]
fn replacen(pattern: &str, text: &str, limit: usize, replacement: &str) -> (out: Result<
    String,
    regex::Error,
>)
    ensures
        match out {
            Ok(rewritten) => pattern_compiles(pattern@) && rewritten@ == replaced(
                pattern@,
                text@,
                limit,
                replacement@,
            ),
            Err(_) => !pattern_compiles(pattern@),
        },
{
    let engine = regex::Regex::new(pattern)?;
    Ok(engine.replacen(text, limit, replacement).into_owned())
}

/// An operator between two numbers.
pub open spec fn first_pattern() -> Seq<char> {
    "(\\d+)([-+])(\\d+)"@
}

/// The two numbers, then the operator.
pub open spec fn first_replacement() -> Seq<char> {
    "$1 $3 $2"@
}

/// Numbers and an operator, then an operator and a number.
pub open spec fn second_pattern() -> Seq<char> {
    "(?P<first>([\\d\\s]+)([-+]))(?P<symbol>[-+])(?P<second>\\d+)"@
}

/// What came first, then the number, then the operator.
pub open spec fn second_replacement() -> Seq<char> {
    "$first $second $symbol"@
}

/// Whether both patterns compile.
pub open spec fn rules_compile() -> bool {
    pattern_compiles(first_pattern()) && pattern_compiles(second_pattern())
}

/// One round: the first rule once, then the second rule everywhere.
pub open spec fn round(text: Seq<char>) -> Seq<char> {
    replaced(
        second_pattern(),
        replaced(first_pattern(), text, 1, first_replacement()),
        0,
        second_replacement(),
    )
}

/// The text that `rounds` rounds at most settle on: the first one that a
/// round leaves as it is. `None` where no such text is reached.
pub open spec fn settle(text: Seq<char>, rounds: nat) -> Option<Seq<char>>
    decreases rounds,
{
    if rounds == 0 {
        None
    } else if round(text) == text {
        Some(text)
    } else {
        settle(round(text), (rounds - 1) as nat)
    }
}

/// Why a text could not be rewritten.
#[derive(Clone, Copy, Debug, PartialEq, Eq, Structural)]
pub enum RewriteError {
    /// A pattern did not compile.
    Pattern,
    /// The rounds allowed did not settle on a text.
    Unsettled,
}

/// Whether a round that made `after` of `before` changed nothing, so that
/// the rewriting has settled.
pub fn is_settled(before: &str, after: &str) -> (settled: bool)
    ensures
        settled == (before@ == after@),
{
    let left = before.to_owned();
    let right = after.to_owned();
    left == right
}

/// One round on `text`.
fn rewrite_round(text: &str) -> (rewritten: Result<String, RewriteError>)
    ensures
        match rewritten {
            Ok(after) => rules_compile() && after@ == round(text@),
            Err(error) => !rules_compile() && error == RewriteError::Pattern,
        },
{
    let moved = match replacen("(\\d+)([-+])(\\d+)", text, 1, "$1 $3 $2") {
        Ok(moved) => moved,
        Err(_) => {
            return Err(RewriteError::Pattern);
        },
    };
    match replacen(
        "(?P<first>([\\d\\s]+)([-+]))(?P<symbol>[-+])(?P<second>\\d+)",
        moved.as_str(),
        0,
        "$first $second $symbol",
    ) {
        Ok(after) => Ok(after),
        Err(_) => Err(RewriteError::Pattern),
    }
}

/// Rewrites the infix expression `string` into postfix form. At most one
/// round more than `string` has characters is made.
pub fn translate_to_postfix(string: &str) -> (translated: Result<String, RewriteError>)
    ensures
        match translated {
            Ok(text) => rules_compile() && settle(string@, string@.len() + 1) == Some(text@),
            Err(RewriteError::Pattern) => !rules_compile(),
            Err(RewriteError::Unsettled) => rules_compile() && settle(string@, string@.len() + 1)
                is None,
        },
{
    let allowed = string.unicode_len();
    let mut made: usize = 0;
    let mut current = string.to_owned();
    loop
        invariant
            made <= allowed == string@.len(),
            settle(current@, (allowed - made + 1) as nat) == settle(string@, string@.len() + 1),
        decreases allowed - made,
    {
        let after = match rewrite_round(current.as_str()) {
            Ok(after) => after,
            Err(error) => {
                return Err(error);
            },
        };
        if is_settled(current.as_str(), after.as_str()) {
            return Ok(after);
        }
        if made == allowed {
            assert(settle(after@, 0) is None);
            return Err(RewriteError::Unsettled);
        }
        current = after;
        made += 1;
    }
}

} // verus!
