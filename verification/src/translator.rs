//! A translator from infix to postfix notation for sums and differences of
//! single digits: `2+3-4` becomes `23+4-`.
//!
//! ```text
//! expr -> term rest
//! rest -> + term rest | - term rest | end
//! term -> digit
//! ```
//!
//! The input ends at its last character or at the first line feed.

use crate::text::{char_is_digit, chars_of, is_digit};
use vstd::prelude::*;

verus! {

/// The character at position `i` of `s`; a line feed past the end.
pub open spec fn peek(s: Seq<char>, i: int) -> char {
    if 0 <= i < s.len() {
        s[i]
    } else {
        '\n'
    }
}

/// How many characters have been read once the one at position `i` has.
pub open spec fn read_through(s: Seq<char>, i: int) -> int {
    if i < s.len() {
        i + 1
    } else {
        s.len() as int
    }
}

/// How a translation ends: the postfix text written so far, the error that
/// stopped it if one did, and how many characters of the input were read.
pub ghost struct Outcome {
    pub text: Seq<char>,
    pub error: Option<Seq<char>>,
    pub taken: int,
}

/// Translates `rest`, with the character at position `i` as lookahead and
/// `out` written so far.
pub open spec fn translate_rest(s: Seq<char>, i: int, out: Seq<char>) -> Outcome
    decreases s.len() - i,
{
    let c = peek(s, i);
    if c == '-' || c == '+' {
        let d = peek(s, i + 1);
        if is_digit(d) && 0 <= i {
            translate_rest(s, i + 2, out.push(d).push(c))
        } else {
            Outcome { text: out, error: Some("Expected digit"@), taken: read_through(s, i + 1) }
        }
    } else if c == '\n' {
        Outcome { text: out, error: None, taken: read_through(s, i) }
    } else {
        Outcome { text: out, error: Some("Expected + or -"@), taken: read_through(s, i) }
    }
}

/// Translates `expr`, with the character at position `i` as lookahead and
/// `out` written so far.
pub open spec fn translate_expr(s: Seq<char>, i: int, out: Seq<char>) -> Outcome {
    if is_digit(peek(s, i)) {
        translate_rest(s, i + 1, out.push(peek(s, i)))
    } else {
        Outcome { text: out, error: Some("Expected digit"@), taken: read_through(s, i) }
    }
}

/// A translator bound to its input.
pub struct SimpleTranslator {
    input: Vec<char>,
    taken: usize,
    lookahead: char,
    result: String,
}

impl SimpleTranslator {
    /// The input.
    pub closed spec fn input(&self) -> Seq<char> {
        self.input@
    }

    /// How many characters of the input have been read.
    pub closed spec fn taken(&self) -> int {
        self.taken as int
    }

    /// The postfix text written so far.
    pub closed spec fn text(&self) -> Seq<char> {
        self.result@
    }

    /// The character under consideration.
    pub closed spec fn lookahead(&self) -> char {
        self.lookahead
    }

    /// No more has been read than the input holds.
    pub closed spec fn wf(&self) -> bool {
        self.taken <= self.input@.len()
    }

    /// A translator at the start of `input`, with nothing written.
    pub fn from_string(input: &str) -> (translator: SimpleTranslator)
        ensures
            translator.wf(),
            translator.input() == input@,
            translator.taken() == 0,
            translator.text() == Seq::<char>::empty(),
    {
        SimpleTranslator {
            input: chars_of(input),
            taken: 0,
            lookahead: '\0',
            result: String::new(),
        }
    }

    /// Reads the next character into the lookahead; a line feed where the
    /// input is used up.
    fn advance(&mut self)
        requires
            old(self).wf(),
        ensures
            final(self).wf(),
            final(self).input() == old(self).input(),
            final(self).text() == old(self).text(),
            final(self).lookahead() == peek(old(self).input(), old(self).taken()),
            final(self).taken() == read_through(old(self).input(), old(self).taken()),
    {
        if self.taken < self.input.len() {
            self.lookahead = self.input[self.taken];
            self.taken = self.taken + 1;
        } else {
            self.lookahead = '\n';
        }
    }

    /// Accepts the lookahead if it is `t`, and reads on.
    fn matcher(&mut self, t: char) -> (matched: Result<(), String>)
        requires
            old(self).wf(),
        ensures
            final(self).wf(),
            final(self).input() == old(self).input(),
            final(self).text() == old(self).text(),
            match matched {
                Ok(_) => {
                    &&& old(self).lookahead() == t
                    &&& final(self).lookahead() == peek(old(self).input(), old(self).taken())
                    &&& final(self).taken() == read_through(old(self).input(), old(self).taken())
                },
                Err(message) => {
                    &&& old(self).lookahead() != t
                    &&& message@ == "Expected + or -"@
                    &&& final(self).lookahead() == old(self).lookahead()
                    &&& final(self).taken() == old(self).taken()
                },
            },
    {
        if self.lookahead == t {
            self.advance();
            Ok(())
        } else {
            Err("Expected + or -".to_owned())
        }
    }

    /// Translates one digit: writes it and reads on. Returns the new
    /// lookahead.
    fn term(&mut self) -> (read: Result<char, String>)
        requires
            old(self).wf(),
        ensures
            final(self).wf(),
            final(self).input() == old(self).input(),
            match read {
                Ok(next) => {
                    &&& is_digit(old(self).lookahead())
                    &&& final(self).text() == old(self).text().push(old(self).lookahead())
                    &&& next == final(self).lookahead()
                    &&& final(self).lookahead() == peek(old(self).input(), old(self).taken())
                    &&& final(self).taken() == read_through(old(self).input(), old(self).taken())
                },
                Err(message) => {
                    &&& !is_digit(old(self).lookahead())
                    &&& message@ == "Expected digit"@
                    &&& final(self).text() == old(self).text()
                    &&& final(self).lookahead() == old(self).lookahead()
                    &&& final(self).taken() == old(self).taken()
                },
            },
    {
        if char_is_digit(self.lookahead) {
            self.result.push(self.lookahead);
            self.advance();
            Ok(self.lookahead)
        } else {
            Err("Expected digit".to_owned())
        }
    }

    /// Translates the expression that starts at the next unread character
    /// and returns the postfix text, or the message of the error that
    /// stopped the translation.
    pub fn expr(&mut self) -> (translated: Result<String, String>)
        requires
            old(self).wf(),
        ensures
            final(self).wf(),
            final(self).input() == old(self).input(),
            ({
                let outcome = translate_expr(
                    old(self).input(),
                    old(self).taken(),
                    old(self).text(),
                );
                &&& final(self).text() == outcome.text
                &&& final(self).taken() == outcome.taken
                &&& match translated {
                    Ok(text) => outcome.error is None && text@ == outcome.text,
                    Err(message) => outcome.error == Some(message@),
                }
            }),
    {
        let ghost s = self.input@;
        let ghost goal = translate_expr(s, self.taken as int, self.result@);
        self.advance();
        match self.term() {
            Ok(_) => {},
            Err(e) => {
                return Err(e);
            },
        }
        let ghost mut at: int = old(self).taken() + 1;
        loop
            invariant
                self.wf(),
                self.input@ == s,
                s == old(self).input(),
                goal == translate_expr(s, old(self).taken(), old(self).text()),
                0 <= at <= s.len() + 1,
                self.lookahead == peek(s, at),
                self.taken == read_through(s, at),
                translate_rest(s, at, self.result@) == goal,
            ensures
                self.lookahead == '\n',
            decreases s.len() + 1 - at,
        {
            if self.lookahead == '-' || self.lookahead == '+' {
                let operator = self.lookahead;
                match self.matcher(operator) {
                    Ok(_) => {},
                    Err(e) => {
                        return Err(e);
                    },
                }
                match self.term() {
                    Ok(_) => {},
                    Err(e) => {
                        return Err(e);
                    },
                }
                self.result.push(operator);
                proof {
                    at = at + 2;
                }
            } else if self.lookahead == '\n' {
                break ;
            } else {
                return Err("Expected + or -".to_owned());
            }
        }
        Ok(self.result.clone())
    }

    /// The postfix text written so far.
    pub fn show_result(&self) -> (text: String)
        ensures
            text@ == self.text(),
    {
        self.result.clone()
    }
}

} // verus!
