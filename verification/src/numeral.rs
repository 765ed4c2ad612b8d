//! Numerals: the numbers of an expression, kept as written.
//!
//! The library never computes with a number. A numeral holds the literal it
//! was written as and how many times one has been taken from it; whoever
//! prints an expression evaluates the literal in floating point, subtracts
//! one that many times, and prints what is left.

use vstd::prelude::*;
use crate::literal::{is_number_literal, number_literal};
use crate::text::{chars_of, string_of};

verus! {

/// A number: a literal, and how often one was taken from it.
#[derive(Debug, PartialEq, Eq)]
pub struct Numeral {
    literal: String,
    lowered: u64,
}

/// What a numeral is, as plain values.
pub struct NumeralView {
    pub literal: Seq<char>,
    pub lowered: u64,
}

impl NumeralView {
    /// The numeral written as `literal`, with nothing taken from it.
    pub open spec fn written(literal: Seq<char>) -> NumeralView {
        NumeralView { literal, lowered: 0 }
    }

    /// The numeral `0`.
    pub open spec fn zero() -> NumeralView {
        NumeralView::written(seq!['0'])
    }

    /// The numeral `1`.
    pub open spec fn one() -> NumeralView {
        NumeralView::written(seq!['1'])
    }

    /// The numeral `2`.
    pub open spec fn two() -> NumeralView {
        NumeralView::written(seq!['2'])
    }

    /// This numeral less one. The count stops at the largest `u64`: a
    /// floating-point number stops changing under subtraction of one long
    /// before that many steps.
    pub open spec fn less_one(self) -> NumeralView {
        NumeralView {
            literal: self.literal,
            lowered: if self.lowered < u64::MAX {
                (self.lowered + 1) as u64
            } else {
                self.lowered
            },
        }
    }

    /// Whether the literal follows the grammar of number literals.
    pub open spec fn well_formed(self) -> bool {
        is_number_literal(self.literal)
    }

    /// The numerals `0`, `1` and `2` are well formed.
    pub proof fn lemma_digits_well_formed()
        ensures
            NumeralView::zero().well_formed(),
            NumeralView::one().well_formed(),
            NumeralView::two().well_formed(),
    {
        lemma_digit_is_literal('0');
        lemma_digit_is_literal('1');
        lemma_digit_is_literal('2');
    }
}

/// One digit alone is a number literal.
proof fn lemma_digit_is_literal(c: char)
    requires
        '0' <= c <= '9',
    ensures
        is_number_literal(seq![c]),
{
    let s = seq![c];
    assert(crate::literal::unsigned(s) == s);
    assert(crate::literal::digits_end(s, 1) == 1);
    assert(crate::literal::digits_end(s, 0) == 1);
    assert(crate::literal::is_decimal(s));
}

impl View for Numeral {
    type V = NumeralView;

    closed spec fn view(&self) -> NumeralView {
        NumeralView { literal: self.literal@, lowered: self.lowered }
    }
}

impl Clone for Numeral {
    fn clone(&self) -> (r: Self)
        ensures
            r@ == self@,
    {
        proof {
            use_type_invariant(self);
        }
        Numeral { literal: self.literal.clone(), lowered: self.lowered }
    }
}

impl Numeral {
    #[verifier::type_invariant]
    spec fn literal_is_a_number(self) -> bool {
        is_number_literal(self.literal@)
    }

    /// The numeral written as `text`, if `text` is a number literal.
    pub fn new(text: &str) -> (r: Option<Numeral>)
        ensures
            r is Some <==> is_number_literal(text@),
            r matches Some(n) ==> n@ == NumeralView::written(text@),
    {
        let chars = chars_of(text);
        if number_literal(chars.as_slice()) {
            Some(Numeral { literal: string_of(chars.as_slice()), lowered: 0 })
        } else {
            None
        }
    }

    /// The numeral written as `chars`.
    pub(crate) fn from_chars(chars: &[char]) -> (r: Numeral)
        requires
            is_number_literal(chars@),
        ensures
            r@ == NumeralView::written(chars@),
    {
        Numeral { literal: string_of(chars), lowered: 0 }
    }

    fn digit(c: char) -> (r: Numeral)
        requires
            '0' <= c <= '9',
        ensures
            r@ == NumeralView::written(seq![c]),
    {
        let chars = [c];
        proof {
            assert(chars@ =~= seq![c]);
            lemma_digit_is_literal(c);
        }
        Numeral::from_chars(&chars)
    }

    /// The numeral `0`.
    pub fn zero() -> (r: Numeral)
        ensures
            r@ == NumeralView::zero(),
    {
        Numeral::digit('0')
    }

    /// The numeral `1`.
    pub fn one() -> (r: Numeral)
        ensures
            r@ == NumeralView::one(),
    {
        Numeral::digit('1')
    }

    /// The numeral `2`.
    pub fn two() -> (r: Numeral)
        ensures
            r@ == NumeralView::two(),
    {
        Numeral::digit('2')
    }

    /// This numeral less one.
    pub fn less_one(&self) -> (r: Numeral)
        ensures
            r@ == self@.less_one(),
    {
        proof {
            use_type_invariant(self);
        }
        let lowered = if self.lowered < u64::MAX {
            self.lowered + 1
        } else {
            self.lowered
        };
        Numeral { literal: self.literal.clone(), lowered }
    }

    /// The literal that this numeral was written as: always a number literal.
    pub fn literal(&self) -> (r: &str)
        ensures
            r@ == self@.literal,
            self@.well_formed(),
    {
        proof {
            use_type_invariant(self);
        }
        self.literal.as_str()
    }

    /// How many times one was taken from the literal.
    pub fn lowered(&self) -> (r: u64)
        ensures
            r == self@.lowered,
    {
        self.lowered
    }
}

} // verus!
