//! The parser: from text to an expression.
//!
//! A text is trimmed; one pair of brackets around it is taken off; what is
//! left is a number, a name, or two expressions around the first operator
//! that stands outside all brackets. No operator binds tighter than another:
//! `2+3*4` is `2 + (3*4)` only because `+` comes first.

use vstd::prelude::*;
use crate::expression::{Expr, ExprView};
use crate::literal::{is_number_literal, number_literal};
use crate::numeral::{Numeral, NumeralView};
use crate::text::{char_is_letter, chars_of, is_letter, lemma_trimmed_len, string_of, trim, trimmed};

verus! {

/// Why a text is no expression.
#[derive(Debug, Clone, Copy, PartialEq, Eq)]
pub enum ParseError {
    /// Neither a number nor a name, and no operator outside all brackets.
    InvalidFormat,
    /// What follows `^` is not a number.
    NonConstantExponent,
}

impl ParseError {
    /// The error in words.
    pub fn message(&self) -> (r: &'static str)
        ensures
            r@ == match self {
                ParseError::InvalidFormat => "Invalid expression format"@,
                ParseError::NonConstantExponent => "Exponent must be a constant"@,
            },
    {
        match self {
            ParseError::InvalidFormat => "Invalid expression format",
            ParseError::NonConstantExponent => "Exponent must be a constant",
        }
    }
}

/// One of the five operators `+ - * / ^`.
pub open spec fn is_operator(c: char) -> bool {
    c == '+' || c == '-' || c == '*' || c == '/' || c == '^'
}

/// How many brackets stand open after the first `i` characters of `s`: the
/// opening ones less the closing ones. It can be negative.
pub open spec fn depth(s: Seq<char>, i: int) -> int
    decreases i,
{
    if i <= 0 {
        0
    } else {
        depth(s, i - 1) + if s[i - 1] == '(' {
            1int
        } else if s[i - 1] == ')' {
            -1int
        } else {
            0int
        }
    }
}

/// Whether position `i` of `s` holds an operator outside all brackets.
pub open spec fn splits_at(s: Seq<char>, i: int) -> bool {
    0 <= i < s.len() && is_operator(s[i]) && depth(s, i) == 0
}

/// The first position at or after `from` where `s` splits.
pub open spec fn split_from(s: Seq<char>, from: int) -> Option<int>
    decreases s.len() - from,
{
    if from < 0 || from >= s.len() {
        None
    } else if splits_at(s, from) {
        Some(from)
    } else {
        split_from(s, from + 1)
    }
}

/// The first position where `s` splits.
pub open spec fn split_point(s: Seq<char>) -> Option<int> {
    split_from(s, 0)
}

/// Whether `s` starts with `(` and ends with `)`. The two need not belong
/// together: `(a)+(b)` is wrapped.
pub open spec fn is_wrapped(s: Seq<char>) -> bool {
    s.len() > 0 && s[0] == '(' && s.last() == ')'
}

/// Whether `s` holds letters only. The empty text does.
pub open spec fn is_name(s: Seq<char>) -> bool {
    forall|i: int| 0 <= i < s.len() ==> is_letter(#[trigger] s[i])
}

/// The expression made of two parsed sides and the operator between them.
/// An error on the left comes before one on the right, and both before the
/// complaint about an exponent.
pub open spec fn combine(
    op: char,
    left: Result<ExprView, ParseError>,
    right: Result<ExprView, ParseError>,
) -> Result<ExprView, ParseError> {
    match (left, right) {
        (Err(e), _) => Err(e),
        (Ok(_), Err(e)) => Err(e),
        (Ok(l), Ok(r)) => if op == '+' {
            Ok(ExprView::Add(Box::new(l), Box::new(r)))
        } else if op == '-' {
            Ok(ExprView::Sub(Box::new(l), Box::new(r)))
        } else if op == '*' {
            Ok(ExprView::Mul(Box::new(l), Box::new(r)))
        } else if op == '/' {
            Ok(ExprView::Div(Box::new(l), Box::new(r)))
        } else {
            match r {
                ExprView::Const(n) => Ok(ExprView::Pow(Box::new(l), n)),
                _ => Err(ParseError::NonConstantExponent),
            }
        },
    }
}

/// What `text` parses to.
pub open spec fn parse(text: Seq<char>) -> Result<ExprView, ParseError>
    decreases text.len(),
    via parse_terminates
{
    let t = trimmed(text);
    if is_wrapped(t) {
        parse(t.subrange(1, t.len() - 1))
    } else if is_number_literal(t) {
        Ok(ExprView::Const(NumeralView::written(t)))
    } else if is_name(t) {
        Ok(ExprView::Var(t))
    } else {
        match split_point(t) {
            Some(i) => combine(t[i], parse(t.take(i)), parse(t.skip(i + 1))),
            None => Err(ParseError::InvalidFormat),
        }
    }
}

#[via_fn]
proof fn parse_terminates(text: Seq<char>) {
    lemma_trimmed_len(text);
    lemma_split_from(trimmed(text), 0);
}

/// `split_from` finds the least position at or after `from` where `s`
/// splits, and finds none only where there is none.
pub proof fn lemma_split_from(s: Seq<char>, from: int)
    requires
        0 <= from,
    ensures
        match split_from(s, from) {
            Some(i) => from <= i < s.len() && splits_at(s, i) && forall|j: int|
                from <= j < i ==> !splits_at(s, j),
            None => forall|j: int| from <= j < s.len() ==> !splits_at(s, j),
        },
    decreases s.len() - from,
{
    if from < s.len() && !splits_at(s, from) {
        lemma_split_from(s, from + 1);
    }
}

/// Whatever parses, parses to a well-formed expression: its numbers are the
/// literals found in the text, and an exponent is always one of them.
pub proof fn lemma_parse_well_formed(text: Seq<char>)
    ensures
        parse(text) matches Ok(e) ==> e.well_formed(),
    decreases text.len(),
{
    let t = trimmed(text);
    lemma_trimmed_len(text);
    if is_wrapped(t) {
        lemma_parse_well_formed(t.subrange(1, t.len() - 1));
    } else if is_number_literal(t) {
    } else if is_name(t) {
    } else {
        lemma_split_from(t, 0);
        match split_point(t) {
            Some(i) => {
                lemma_parse_well_formed(t.take(i));
                lemma_parse_well_formed(t.skip(i + 1));
            },
            None => {},
        }
    }
}

/// The outcome of parsing, as plain values.
pub open spec fn outcome(r: Result<Expr, ParseError>) -> Result<ExprView, ParseError> {
    match r {
        Ok(e) => Ok(e@),
        Err(e) => Err(e),
    }
}

fn all_letters(chars: &[char]) -> (r: bool)
    ensures
        r == is_name(chars@),
{
    let mut i: usize = 0;
    while i < chars.len()
        invariant
            i <= chars.len(),
            forall|k: int| 0 <= k < i ==> is_letter(#[trigger] chars@[k]),
        decreases chars.len() - i,
    {
        if !char_is_letter(chars[i]) {
            return false;
        }
        i = i + 1;
    }
    true
}

fn find_split(chars: &[char]) -> (r: Option<usize>)
    ensures
        match r {
            Some(i) => split_point(chars@) == Some(i as int),
            None => split_point(chars@) is None,
        },
{
    let mut open: i128 = 0;
    let mut i: usize = 0;
    while i < chars.len()
        invariant
            i <= chars.len(),
            open == depth(chars@, i as int),
            -(i as int) <= open <= i as int,
            split_from(chars@, i as int) == split_point(chars@),
        decreases chars.len() - i,
    {
        let c = chars[i];
        if open == 0 && (c == '+' || c == '-' || c == '*' || c == '/' || c == '^') {
            return Some(i);
        }
        if c == '(' {
            open = open + 1;
        } else if c == ')' {
            open = open - 1;
        }
        i = i + 1;
    }
    None
}

/// Parses the characters of a text.
pub fn parse_chars(chars: &[char]) -> (r: Result<Expr, ParseError>)
    ensures
        outcome(r) == parse(chars@),
    decreases chars.len(),
{
    let t = trim(chars);
    let n = t.len();
    proof {
        lemma_trimmed_len(chars@);
        lemma_split_from(t@, 0);
    }
    if n > 0 && t[0] == '(' && t[n - 1] == ')' {
        return parse_chars(&t[1..n - 1]);
    }
    if number_literal(t) {
        return Ok(Expr::Const(Numeral::from_chars(t)));
    }
    if all_letters(t) {
        return Ok(Expr::Var(string_of(t)));
    }
    match find_split(t) {
        None => Err(ParseError::InvalidFormat),
        Some(i) => {
            let op = t[i];
            assert(t@.subrange(0, i as int) == t@.take(i as int));
            assert(t@.subrange(i + 1, n as int) == t@.skip(i + 1));
            let left = match parse_chars(&t[0..i]) {
                Ok(e) => e,
                Err(e) => {
                    return Err(e);
                },
            };
            let right = match parse_chars(&t[i + 1..n]) {
                Ok(e) => e,
                Err(e) => {
                    return Err(e);
                },
            };
            if op == '+' {
                Ok(Expr::Add(Box::new(left), Box::new(right)))
            } else if op == '-' {
                Ok(Expr::Sub(Box::new(left), Box::new(right)))
            } else if op == '*' {
                Ok(Expr::Mul(Box::new(left), Box::new(right)))
            } else if op == '/' {
                Ok(Expr::Div(Box::new(left), Box::new(right)))
            } else {
                match right {
                    Expr::Const(n) => Ok(Expr::Pow(Box::new(left), n)),
                    _ => Err(ParseError::NonConstantExponent),
                }
            }
        },
    }
}

/// Parses `input`.
pub fn parse_expression(input: &str) -> (r: Result<Expr, ParseError>)
    ensures
        outcome(r) == parse(input@),
{
    let chars = chars_of(input);
    parse_chars(chars.as_slice())
}

} // verus!
